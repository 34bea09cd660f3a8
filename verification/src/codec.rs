//! The canonical packet payload: a deterministic byte encoding of a batch
//! of query requests, and its mirror decoding.
//!
//! The wire form is an ordered list of fixed-field records, each carrying
//! `{data, path, height, prove}` with every optional field resolved to its
//! default.  The encoding is total for any batch within the size bounds of
//! [`records_wf`], is byte-for-byte determined by the requests alone, and
//! determines them uniquely ([`lemma_enc_packet_injective`]): decoding an
//! encoded batch can only give the batch back, so re-encoding reproduces
//! the identical bytes.
//!
//! Layout, all integers little endian: a `u32` record count, then per
//! record a `u32` data length and the data bytes, a `u32` path length and
//! each path character as a `u32` scalar value, the height as a `u64`, and
//! one byte (0 or 1) for the proof flag.

use vstd::prelude::*;
use vstd::bytes::*;
use vstd::slice::{slice_subrange, slice_to_vec};
use vstd::string::*;

use crate::msg::{RequestQuery, RequestQueryJSON};

verus! {

/// The mathematical image of one wire record.
#[verifier::ext_equal]
pub struct QueryRecord {
    pub data: Seq<u8>,
    pub path: Seq<char>,
    pub height: i64,
    pub prove: bool,
}

impl View for RequestQueryJSON {
    type V = QueryRecord;

    open spec fn view(&self) -> QueryRecord {
        QueryRecord { data: self.data@, path: self.path@, height: self.height, prove: self.prove }
    }
}

impl DeepView for RequestQueryJSON {
    type V = QueryRecord;

    open spec fn deep_view(&self) -> QueryRecord {
        self@
    }
}

/// The wire record a caller-supplied request stands for: `height` defaults
/// to 0 (the latest height) and `prove` to false.
pub open spec fn record_of(r: RequestQuery) -> QueryRecord {
    QueryRecord {
        data: r.data@,
        path: r.path@,
        height: match r.height {
            Some(h) => h,
            None => 0,
        },
        prove: match r.prove {
            Some(p) => p,
            None => false,
        },
    }
}

/// The wire records of a whole request batch, in order.
pub open spec fn records_of(rs: Seq<RequestQuery>) -> Seq<QueryRecord> {
    rs.map_values(|r: RequestQuery| record_of(r))
}

/// A record fits the wire form: its variable-length fields fit a `u32`.
pub open spec fn record_wf(r: QueryRecord) -> bool {
    &&& r.data.len() <= u32::MAX
    &&& r.path.len() <= u32::MAX
}

/// A batch fits the wire form.
pub open spec fn records_wf(rs: Seq<QueryRecord>) -> bool {
    &&& rs.len() <= u32::MAX
    &&& forall|i: int| 0 <= i < rs.len() ==> record_wf(#[trigger] rs[i])
}

/// One character on the wire: its Unicode scalar value, little endian.
pub open spec fn enc_char(c: char) -> Seq<u8> {
    spec_u32_to_le_bytes(c as u32)
}

/// A character sequence on the wire, character by character.
pub open spec fn enc_chars(s: Seq<char>) -> Seq<u8>
    decreases s.len(),
{
    if s.len() == 0 {
        Seq::empty()
    } else {
        enc_char(s[0]) + enc_chars(s.drop_first())
    }
}

/// The proof flag on the wire.
pub open spec fn enc_bool(b: bool) -> Seq<u8> {
    seq![if b { 1u8 } else { 0u8 }]
}

/// One record on the wire.
pub open spec fn enc_record(r: QueryRecord) -> Seq<u8> {
    spec_u32_to_le_bytes(r.data.len() as u32) + r.data + spec_u32_to_le_bytes(
        r.path.len() as u32,
    ) + enc_chars(r.path) + spec_u64_to_le_bytes(r.height as u64) + enc_bool(r.prove)
}

/// A record list on the wire, record by record.
pub open spec fn enc_records(rs: Seq<QueryRecord>) -> Seq<u8>
    decreases rs.len(),
{
    if rs.len() == 0 {
        Seq::empty()
    } else {
        enc_record(rs[0]) + enc_records(rs.drop_first())
    }
}

/// The whole payload: the record count, then the records.
pub open spec fn enc_packet(rs: Seq<QueryRecord>) -> Seq<u8> {
    spec_u32_to_le_bytes(rs.len() as u32) + enc_records(rs)
}

/// Each character occupies exactly four bytes.
pub proof fn lemma_enc_chars_len(s: Seq<char>)
    ensures
        enc_chars(s).len() == 4 * s.len(),
    decreases s.len(),
{
    lemma_auto_spec_u32_to_from_le_bytes();
    if s.len() > 0 {
        lemma_enc_chars_len(s.drop_first());
    }
}

/// Appending a character appends its four bytes.
pub proof fn lemma_enc_chars_push(s: Seq<char>, c: char)
    ensures
        enc_chars(s.push(c)) == enc_chars(s) + enc_char(c),
    decreases s.len(),
{
    if s.len() == 0 {
        assert(s.push(c).len() == 1);
        assert(s.push(c)[0] == c);
        assert(s.push(c).drop_first() =~= Seq::<char>::empty());
        assert(enc_chars(s.push(c)) == enc_char(s.push(c)[0]) + enc_chars(s.push(c).drop_first()));
        assert(enc_chars(s.push(c).drop_first()) == Seq::<u8>::empty());
        assert(enc_char(c) + Seq::<u8>::empty() =~= enc_char(c));
        assert(enc_chars(s) + enc_char(c) =~= enc_char(c));
    } else {
        assert(s.push(c).drop_first() =~= s.drop_first().push(c));
        lemma_enc_chars_push(s.drop_first(), c);
        assert(s.push(c)[0] == s[0]);
        assert(enc_chars(s.push(c)) == enc_char(s[0]) + (enc_chars(s.drop_first()) + enc_char(c)));
        assert(enc_char(s[0]) + (enc_chars(s.drop_first()) + enc_char(c)) =~= (enc_char(s[0])
            + enc_chars(s.drop_first())) + enc_char(c));
    }
}

/// The four bytes of character `j` sit at offset `4 * j`.
pub proof fn lemma_enc_chars_index(s: Seq<char>, j: int)
    requires
        0 <= j < s.len(),
    ensures
        enc_chars(s).subrange(4 * j, 4 * j + 4) == enc_char(s[j]),
    decreases j,
{
    lemma_auto_spec_u32_to_from_le_bytes();
    lemma_enc_chars_len(s);
    lemma_enc_chars_len(s.drop_first());
    if j == 0 {
        assert(enc_chars(s).subrange(0, 4) =~= enc_char(s[0]));
    } else {
        lemma_enc_chars_index(s.drop_first(), j - 1);
        assert(s.drop_first()[j - 1] == s[j]);
        assert(enc_chars(s).subrange(4 * j, 4 * j + 4) =~= enc_chars(s.drop_first()).subrange(
            4 * (j - 1),
            4 * (j - 1) + 4,
        ));
    }
}

/// Appending a record appends its encoding.
pub proof fn lemma_enc_records_push(rs: Seq<QueryRecord>, r: QueryRecord)
    ensures
        enc_records(rs.push(r)) == enc_records(rs) + enc_record(r),
    decreases rs.len(),
{
    if rs.len() == 0 {
        assert(rs.push(r).len() == 1);
        assert(rs.push(r)[0] == r);
        assert(rs.push(r).drop_first() =~= Seq::<QueryRecord>::empty());
        assert(enc_records(rs.push(r)) == enc_record(rs.push(r)[0]) + enc_records(
            rs.push(r).drop_first(),
        ));
        assert(enc_records(rs.push(r).drop_first()) == Seq::<u8>::empty());
        assert(enc_record(r) + Seq::<u8>::empty() =~= enc_record(r));
        assert(enc_records(rs) + enc_record(r) =~= enc_record(r));
    } else {
        assert(rs.push(r).drop_first() =~= rs.drop_first().push(r));
        lemma_enc_records_push(rs.drop_first(), r);
        assert(rs.push(r)[0] == rs[0]);
        assert(enc_records(rs.push(r)) == enc_record(rs[0]) + (enc_records(rs.drop_first())
            + enc_record(r)));
        assert(enc_record(rs[0]) + (enc_records(rs.drop_first()) + enc_record(r)) =~= (enc_record(
            rs[0],
        ) + enc_records(rs.drop_first())) + enc_record(r));
    }
}

/// Encoding a concatenation concatenates the encodings.
pub proof fn lemma_enc_records_concat(a: Seq<QueryRecord>, b: Seq<QueryRecord>)
    ensures
        enc_records(a + b) == enc_records(a) + enc_records(b),
    decreases a.len(),
{
    if a.len() == 0 {
        assert(a + b =~= b);
        assert(enc_records(a) + enc_records(b) =~= enc_records(b));
    } else {
        assert((a + b).drop_first() =~= a.drop_first() + b);
        lemma_enc_records_concat(a.drop_first(), b);
        assert((a + b)[0] == a[0]);
        assert(enc_records(a + b) == enc_record(a[0]) + (enc_records(a.drop_first())
            + enc_records(b)));
        assert(enc_record(a[0]) + (enc_records(a.drop_first()) + enc_records(b)) =~= (enc_record(
            a[0],
        ) + enc_records(a.drop_first())) + enc_records(b));
    }
}

/// Where each field of an encoded record sits in a byte sequence that
/// starts with that record.
pub proof fn lemma_record_layout(q: QueryRecord, rest: Seq<u8>)
    requires
        record_wf(q),
    ensures
        (enc_record(q) + rest).len() == 17 + q.data.len() + 4 * q.path.len() + rest.len(),
        (enc_record(q) + rest).subrange(0, 4) == spec_u32_to_le_bytes(q.data.len() as u32),
        (enc_record(q) + rest).subrange(4, 4 + q.data.len() as int) == q.data,
        (enc_record(q) + rest).subrange(4 + q.data.len() as int, 8 + q.data.len() as int)
            == spec_u32_to_le_bytes(q.path.len() as u32),
        (enc_record(q) + rest).subrange(
            8 + q.data.len() as int,
            8 + q.data.len() + 4 * q.path.len() as int,
        ) == enc_chars(q.path),
        forall|j: int|
            0 <= j < q.path.len() ==> (enc_record(q) + rest).subrange(
                8 + q.data.len() + 4 * j,
                12 + q.data.len() + 4 * j,
            ) == spec_u32_to_le_bytes(#[trigger] (q.path[j] as u32)),
        (enc_record(q) + rest).subrange(
            8 + q.data.len() + 4 * q.path.len() as int,
            16 + q.data.len() + 4 * q.path.len() as int,
        ) == spec_u64_to_le_bytes(q.height as u64),
        (enc_record(q) + rest)[16 + q.data.len() + 4 * q.path.len() as int] == (if q.prove {
            1u8
        } else {
            0u8
        }),
        rest == (enc_record(q) + rest).skip(17 + q.data.len() + 4 * q.path.len() as int),
{
    lemma_auto_spec_u32_to_from_le_bytes();
    lemma_auto_spec_u64_to_from_le_bytes();
    lemma_enc_chars_len(q.path);
    let t = enc_record(q) + rest;
    let d = q.data.len() as int;
    let m = q.path.len() as int;
    assert(t.subrange(0, 4) =~= spec_u32_to_le_bytes(q.data.len() as u32));
    assert(t.subrange(4, 4 + d) =~= q.data);
    assert(t.subrange(4 + d, 8 + d) =~= spec_u32_to_le_bytes(q.path.len() as u32));
    assert(t.subrange(8 + d, 8 + d + 4 * m) =~= enc_chars(q.path));
    assert forall|j: int| 0 <= j < m implies t.subrange(8 + d + 4 * j, 12 + d + 4 * j)
        == spec_u32_to_le_bytes(#[trigger] (q.path[j] as u32)) by {
        lemma_enc_chars_index(q.path, j);
        assert(t.subrange(8 + d + 4 * j, 12 + d + 4 * j) =~= enc_chars(q.path).subrange(
            4 * j,
            4 * j + 4,
        ));
    }
    assert(t.subrange(8 + d + 4 * m, 16 + d + 4 * m) =~= spec_u64_to_le_bytes(q.height as u64));
    assert(rest =~= t.skip(17 + d + 4 * m));
}

/// A byte sequence starting with an encoded record determines that record
/// and what follows it: record encodings are prefix free.
pub proof fn lemma_enc_record_prefix(r1: QueryRecord, r2: QueryRecord, s1: Seq<u8>, s2: Seq<u8>)
    requires
        record_wf(r1),
        record_wf(r2),
        enc_record(r1) + s1 == enc_record(r2) + s2,
    ensures
        r1 == r2,
        s1 == s2,
{
    lemma_auto_spec_u32_to_from_le_bytes();
    lemma_auto_spec_u64_to_from_le_bytes();
    lemma_record_layout(r1, s1);
    lemma_record_layout(r2, s2);
    let t = enc_record(r1) + s1;
    // The data lengths agree, so the data windows coincide.
    assert(spec_u32_from_le_bytes(spec_u32_to_le_bytes(r1.data.len() as u32))
        == spec_u32_from_le_bytes(spec_u32_to_le_bytes(r2.data.len() as u32)));
    assert(r1.data.len() == r2.data.len());
    let d = r1.data.len() as int;
    assert(r1.data == r2.data);
    // The path lengths agree, so the character windows coincide.
    assert(spec_u32_from_le_bytes(spec_u32_to_le_bytes(r1.path.len() as u32))
        == spec_u32_from_le_bytes(spec_u32_to_le_bytes(r2.path.len() as u32)));
    assert(r1.path.len() == r2.path.len());
    let m = r1.path.len() as int;
    assert forall|j: int| 0 <= j < m implies r1.path[j] == r2.path[j] by {
        assert(t.subrange(8 + d + 4 * j, 12 + d + 4 * j) == spec_u32_to_le_bytes(
            r1.path[j] as u32,
        ));
        assert(t.subrange(8 + d + 4 * j, 12 + d + 4 * j) == spec_u32_to_le_bytes(
            r2.path[j] as u32,
        ));
        assert(r1.path[j] as u32 == r2.path[j] as u32);
        vstd::utf8::char_u32_cast(r1.path[j], r1.path[j] as u32);
        vstd::utf8::char_u32_cast(r2.path[j], r2.path[j] as u32);
    }
    assert(r1.path =~= r2.path);
    // Heights and proof flags agree.
    assert(spec_u64_from_le_bytes(spec_u64_to_le_bytes(r1.height as u64))
        == spec_u64_from_le_bytes(spec_u64_to_le_bytes(r2.height as u64)));
    let h1 = r1.height;
    let h2 = r2.height;
    assert(h1 as u64 == h2 as u64 ==> h1 == h2) by (bit_vector);
    assert(t[16 + d + 4 * m] == (if r1.prove {
        1u8
    } else {
        0u8
    }));
    assert(t[16 + d + 4 * m] == (if r2.prove {
        1u8
    } else {
        0u8
    }));
    assert(r1.prove == r2.prove);
    assert(r1 =~= r2);
    assert(s1 == t.skip(17 + d + 4 * m));
    assert(s2 == t.skip(17 + d + 4 * m));
}

/// A byte sequence starting with `n` encoded records determines those `n`
/// records and what follows them.
pub proof fn lemma_enc_records_prefix(
    a: Seq<QueryRecord>,
    b: Seq<QueryRecord>,
    s1: Seq<u8>,
    s2: Seq<u8>,
)
    requires
        a.len() == b.len(),
        forall|i: int| 0 <= i < a.len() ==> record_wf(#[trigger] a[i]),
        forall|i: int| 0 <= i < b.len() ==> record_wf(#[trigger] b[i]),
        enc_records(a) + s1 == enc_records(b) + s2,
    ensures
        a == b,
        s1 == s2,
    decreases a.len(),
{
    if a.len() == 0 {
        assert(enc_records(a) == Seq::<u8>::empty());
        assert(enc_records(b) == Seq::<u8>::empty());
        assert(s1 =~= enc_records(a) + s1);
        assert(s2 =~= enc_records(b) + s2);
        assert(a =~= b);
    } else {
        assert(enc_records(a) == enc_record(a[0]) + enc_records(a.drop_first()));
        assert(enc_records(b) == enc_record(b[0]) + enc_records(b.drop_first()));
        assert((enc_record(a[0]) + enc_records(a.drop_first())) + s1 =~= enc_record(a[0]) + (
        enc_records(a.drop_first()) + s1));
        assert((enc_record(b[0]) + enc_records(b.drop_first())) + s2 =~= enc_record(b[0]) + (
        enc_records(b.drop_first()) + s2));
        lemma_enc_record_prefix(
            a[0],
            b[0],
            enc_records(a.drop_first()) + s1,
            enc_records(b.drop_first()) + s2,
        );
        assert(forall|i: int|
            0 <= i < a.drop_first().len() ==> record_wf(#[trigger] a.drop_first()[i]));
        assert(forall|i: int|
            0 <= i < b.drop_first().len() ==> record_wf(#[trigger] b.drop_first()[i]));
        lemma_enc_records_prefix(a.drop_first(), b.drop_first(), s1, s2);
        assert(a =~= b) by {
            assert(forall|i: int|
                1 <= i < a.len() ==> a[i] == a.drop_first()[i - 1] && b[i] == b.drop_first()[i
                    - 1]);
        }
    }
}

/// The canonical payload determines the batch: two batches with the same
/// encoding are the same batch.
pub proof fn lemma_enc_packet_injective(a: Seq<QueryRecord>, b: Seq<QueryRecord>)
    requires
        records_wf(a),
        records_wf(b),
        enc_packet(a) == enc_packet(b),
    ensures
        a == b,
{
    lemma_auto_spec_u32_to_from_le_bytes();
    let t = enc_packet(a);
    assert(t.subrange(0, 4) =~= spec_u32_to_le_bytes(a.len() as u32));
    assert(t.subrange(0, 4) =~= spec_u32_to_le_bytes(b.len() as u32));
    assert(spec_u32_from_le_bytes(spec_u32_to_le_bytes(a.len() as u32)) == spec_u32_from_le_bytes(
        spec_u32_to_le_bytes(b.len() as u32),
    ));
    assert(a.len() == b.len());
    assert(enc_records(a) =~= t.skip(4));
    assert(enc_records(b) =~= t.skip(4));
    assert(enc_records(a) + Seq::<u8>::empty() =~= enc_records(a));
    assert(enc_records(b) + Seq::<u8>::empty() =~= enc_records(b));
    lemma_enc_records_prefix(a, b, Seq::<u8>::empty(), Seq::<u8>::empty());
}

/// Relies on char::from_u32: it returns a character exactly for Unicode
/// scalar values, and that character's scalar value is the argument.
#[verifier::external_body]
fn char_from_u32(v: u32) -> (r: Option<char>)
    ensures
        r is Some <==> vstd::utf8::is_scalar(v),
        r matches Some(c) ==> c as u32 == v,
{
    char::from_u32(v)
}

/// Relies on String::push: it appends exactly the given character.
#[verifier::external_body]
pub(crate) fn push_char(s: &mut String, c: char)
    ensures
        final(s)@ == old(s)@.push(c),
{
    s.push(c);
}

/// Appends every byte of `b` to `out`.
fn push_bytes(out: &mut Vec<u8>, b: &Vec<u8>)
    ensures
        final(out)@ == old(out)@ + b@,
{
    let n = b.len();
    let mut i: usize = 0;
    while i < n
        invariant
            n == b@.len(),
            0 <= i <= n,
            out@ == old(out)@ + b@.take(i as int),
        decreases n - i,
    {
        out.push(b[i]);
        proof {
            assert(b@.take(i as int + 1) =~= b@.take(i as int).push(b@[i as int]));
            assert(old(out)@ + b@.take(i as int + 1) =~= (old(out)@ + b@.take(i as int)).push(
                b@[i as int],
            ));
        }
        i += 1;
    }
    proof {
        assert(b@.take(n as int) =~= b@);
    }
}

/// The wire records of a caller-supplied batch: each request with its
/// optional fields resolved to their defaults.
pub fn default_records(requests: &Vec<RequestQuery>) -> (r: Vec<RequestQueryJSON>)
    ensures
        r.deep_view() == records_of(requests@),
{
    let n = requests.len();
    let mut out: Vec<RequestQueryJSON> = Vec::new();
    let mut i: usize = 0;
    while i < n
        invariant
            n == requests@.len(),
            0 <= i <= n,
            out@.len() == i,
            forall|j: int|
                0 <= j < i ==> #[trigger] out.deep_view()[j] == record_of(requests@[j]),
        decreases n - i,
    {
        let rq = &requests[i];
        let height: i64 = match rq.height {
            Some(h) => h,
            None => 0,
        };
        let prove: bool = match rq.prove {
            Some(p) => p,
            None => false,
        };
        let ghost dv = out.deep_view();
        let rec = RequestQueryJSON {
            data: slice_to_vec(rq.data.as_slice()),
            path: rq.path.clone(),
            height,
            prove,
        };
        proof {
            assert(rec@ =~= record_of(requests@[i as int]));
        }
        out.push(rec);
        proof {
            assert(out.deep_view() =~= dv.push(record_of(requests@[i as int])));
        }
        i += 1;
    }
    proof {
        assert(out.deep_view() =~= records_of(requests@));
    }
    out
}

/// Appends one record's encoding to `out`.  Fails exactly when the record
/// exceeds the wire form's size bounds, and may then leave `out` dirty;
/// the caller discards it.
fn encode_record_into(out: &mut Vec<u8>, r: &RequestQueryJSON) -> (ok: bool)
    ensures
        ok ==> record_wf(r@) && final(out)@ == old(out)@ + enc_record(r@),
        !ok ==> !record_wf(r@),
{
    let dlen = r.data.len();
    if dlen > u32::MAX as usize {
        return false;
    }
    let plen = r.path.as_str().unicode_len();
    if plen > u32::MAX as usize {
        return false;
    }
    let mut piece = u32_to_le_bytes(dlen as u32);
    out.append(&mut piece);
    push_bytes(out, &r.data);
    let mut piece2 = u32_to_le_bytes(plen as u32);
    out.append(&mut piece2);
    let ghost base = out@;
    let mut j: usize = 0;
    while j < plen
        invariant
            plen == r.path@.len(),
            0 <= j <= plen,
            out@ == base + enc_chars(r.path@.take(j as int)),
        decreases plen - j,
    {
        let c = r.path.as_str().get_char(j);
        let mut cb = u32_to_le_bytes(c as u32);
        out.append(&mut cb);
        proof {
            assert(r.path@.take(j as int + 1) =~= r.path@.take(j as int).push(r.path@[j as int]));
            lemma_enc_chars_push(r.path@.take(j as int), r.path@[j as int]);
        }
        j += 1;
    }
    proof {
        assert(r.path@.take(plen as int) =~= r.path@);
    }
    let mut hb = u64_to_le_bytes(r.height as u64);
    out.append(&mut hb);
    out.push(if r.prove {
        1
    } else {
        0
    });
    proof {
        assert(out@ =~= old(out)@ + enc_record(r@));
    }
    true
}

/// Builds the canonical payload for a batch of wire records.  Fails
/// exactly when the batch exceeds the wire form's size bounds.
pub fn encode(records: &Vec<RequestQueryJSON>) -> (r: Option<Vec<u8>>)
    ensures
        match r {
            Some(b) => records_wf(records.deep_view()) && b@ == enc_packet(records.deep_view()),
            None => !records_wf(records.deep_view()),
        },
{
    let n = records.len();
    if n > u32::MAX as usize {
        return None;
    }
    let mut out: Vec<u8> = u32_to_le_bytes(n as u32);
    let mut i: usize = 0;
    while i < n
        invariant
            n == records@.len(),
            n <= u32::MAX,
            0 <= i <= n,
            forall|j: int| 0 <= j < i ==> record_wf(#[trigger] records.deep_view()[j]),
            out@ == spec_u32_to_le_bytes(n as u32) + enc_records(
                records.deep_view().take(i as int),
            ),
        decreases n - i,
    {
        let ghost pre = out@;
        let ok = encode_record_into(&mut out, &records[i]);
        if !ok {
            proof {
                assert(!record_wf(records.deep_view()[i as int]));
            }
            return None;
        }
        proof {
            assert(records.deep_view().take(i as int + 1) =~= records.deep_view().take(
                i as int,
            ).push(records.deep_view()[i as int]));
            lemma_enc_records_push(
                records.deep_view().take(i as int),
                records.deep_view()[i as int],
            );
            assert(out@ =~= spec_u32_to_le_bytes(n as u32) + enc_records(
                records.deep_view().take(i as int + 1),
            ));
        }
        i += 1;
    }
    proof {
        assert(records.deep_view().take(n as int) =~= records.deep_view());
        assert(out@ =~= enc_packet(records.deep_view()));
    }
    Some(out)
}

/// What an encoded record starting at `pos` pins down about the bytes
/// there: [`lemma_record_layout`] shifted to absolute offsets.
proof fn lemma_skip_layout(bytes: Seq<u8>, pos: int, q: QueryRecord, rest: Seq<u8>)
    requires
        0 <= pos <= bytes.len(),
        record_wf(q),
        enc_record(q) + rest == bytes.skip(pos),
    ensures
        bytes.len() - pos == 17 + q.data.len() + 4 * q.path.len() + rest.len(),
        bytes.subrange(pos, pos + 4) == spec_u32_to_le_bytes(q.data.len() as u32),
        bytes.subrange(pos + 4, pos + 4 + q.data.len() as int) == q.data,
        bytes.subrange(pos + 4 + q.data.len() as int, pos + 8 + q.data.len() as int)
            == spec_u32_to_le_bytes(q.path.len() as u32),
        forall|j: int|
            0 <= j < q.path.len() ==> bytes.subrange(
                pos + 8 + q.data.len() + 4 * j,
                pos + 12 + q.data.len() + 4 * j,
            ) == spec_u32_to_le_bytes(#[trigger] (q.path[j] as u32)),
        bytes.subrange(
            pos + 8 + q.data.len() + 4 * q.path.len() as int,
            pos + 16 + q.data.len() + 4 * q.path.len() as int,
        ) == spec_u64_to_le_bytes(q.height as u64),
        bytes[pos + 16 + q.data.len() + 4 * q.path.len() as int] == (if q.prove {
            1u8
        } else {
            0u8
        }),
{
    lemma_record_layout(q, rest);
    let t = enc_record(q) + rest;
    let d = q.data.len() as int;
    let m = q.path.len() as int;
    assert(bytes.subrange(pos, pos + 4) =~= t.subrange(0, 4));
    assert(bytes.subrange(pos + 4, pos + 4 + d) =~= t.subrange(4, 4 + d));
    assert(bytes.subrange(pos + 4 + d, pos + 8 + d) =~= t.subrange(4 + d, 8 + d));
    assert forall|j: int| 0 <= j < m implies bytes.subrange(
        pos + 8 + d + 4 * j,
        pos + 12 + d + 4 * j,
    ) == spec_u32_to_le_bytes(#[trigger] (q.path[j] as u32)) by {
        assert(bytes.subrange(pos + 8 + d + 4 * j, pos + 12 + d + 4 * j) =~= t.subrange(
            8 + d + 4 * j,
            12 + d + 4 * j,
        ));
    }
    assert(bytes.subrange(pos + 8 + d + 4 * m, pos + 16 + d + 4 * m) =~= t.subrange(
        8 + d + 4 * m,
        16 + d + 4 * m,
    ));
    assert(bytes[pos + 16 + d + 4 * m] == t[16 + d + 4 * m]);
}

/// Parses one record at `pos`.  On success the consumed bytes are exactly
/// the record's encoding; on failure no record encoding starts at `pos`.
fn parse_record(bytes: &Vec<u8>, pos: usize) -> (r: Option<(RequestQueryJSON, usize)>)
    requires
        pos <= bytes@.len(),
    ensures
        match r {
            Some(p) => pos <= p.1 <= bytes@.len() && record_wf(p.0@) && enc_record(p.0@)
                == bytes@.subrange(pos as int, p.1 as int),
            None => forall|q: QueryRecord, rest: Seq<u8>|
                record_wf(q) ==> enc_record(q) + rest != bytes@.skip(pos as int),
        },
{
    let len = bytes.len();
    if len - pos < 4 {
        proof {
            assert forall|q: QueryRecord, rest: Seq<u8>| record_wf(q) implies enc_record(q) + rest
                != bytes@.skip(pos as int) by {
                if enc_record(q) + rest == bytes@.skip(pos as int) {
                    lemma_skip_layout(bytes@, pos as int, q, rest);
                }
            }
        }
        return None;
    }
    let d32 = u32_from_le_bytes(slice_subrange(bytes.as_slice(), pos, pos + 4));
    let d = d32 as usize;
    let p1 = pos + 4;
    proof {
        lemma_auto_spec_u32_to_from_le_bytes();
        assert(bytes@.subrange(pos as int, p1 as int) == spec_u32_to_le_bytes(d32));
    }
    if len - p1 < d {
        proof {
            lemma_auto_spec_u32_to_from_le_bytes();
            assert forall|q: QueryRecord, rest: Seq<u8>| record_wf(q) implies enc_record(q) + rest
                != bytes@.skip(pos as int) by {
                if enc_record(q) + rest == bytes@.skip(pos as int) {
                    lemma_skip_layout(bytes@, pos as int, q, rest);
                    assert(q.data.len() as u32 == d32);
                    assert(q.data.len() == d);
                }
            }
        }
        return None;
    }
    let data = slice_to_vec(slice_subrange(bytes.as_slice(), p1, p1 + d));
    let p2 = p1 + d;
    if len - p2 < 4 {
        proof {
            lemma_auto_spec_u32_to_from_le_bytes();
            assert forall|q: QueryRecord, rest: Seq<u8>| record_wf(q) implies enc_record(q) + rest
                != bytes@.skip(pos as int) by {
                if enc_record(q) + rest == bytes@.skip(pos as int) {
                    lemma_skip_layout(bytes@, pos as int, q, rest);
                    assert(q.data.len() as u32 == d32);
                    assert(q.data.len() == d);
                }
            }
        }
        return None;
    }
    let m32 = u32_from_le_bytes(slice_subrange(bytes.as_slice(), p2, p2 + 4));
    let m = m32 as usize;
    let p3 = p2 + 4;
    proof {
        lemma_auto_spec_u32_to_from_le_bytes();
        assert(bytes@.subrange(p2 as int, p3 as int) == spec_u32_to_le_bytes(m32));
    }
    if (len - p3) / 4 < m {
        proof {
            lemma_auto_spec_u32_to_from_le_bytes();
            assert forall|q: QueryRecord, rest: Seq<u8>| record_wf(q) implies enc_record(q) + rest
                != bytes@.skip(pos as int) by {
                if enc_record(q) + rest == bytes@.skip(pos as int) {
                    lemma_skip_layout(bytes@, pos as int, q, rest);
                    assert(q.data.len() as u32 == d32);
                    assert(q.data.len() == d);
                    assert(q.path.len() as u32 == m32);
                    assert(q.path.len() == m);
                    assert(len - p3 >= 4 * m);
                    assert((len - p3) / 4 >= m);
                }
            }
        }
        return None;
    }
    proof {
        assert(4 * m <= ((len - p3) / 4) * 4 + 3);
        assert(p3 + 4 * m <= len);
    }
    let mut path = String::new();
    let mut j: usize = 0;
    let mut cur = p3;
    while j < m
        invariant
            len == bytes@.len(),
            pos <= len,
            p1 == pos + 4,
            p2 == p1 + d,
            p3 == p2 + 4,
            p3 + 4 * m <= len,
            d == d32 as usize,
            m == m32 as usize,
            bytes@.subrange(pos as int, p1 as int) == spec_u32_to_le_bytes(d32),
            bytes@.subrange(p2 as int, p3 as int) == spec_u32_to_le_bytes(m32),
            0 <= j <= m,
            cur == p3 + 4 * j,
            path@.len() == j,
            enc_chars(path@) == bytes@.subrange(p3 as int, cur as int),
        decreases m - j,
    {
        let v = u32_from_le_bytes(slice_subrange(bytes.as_slice(), cur, cur + 4));
        proof {
            lemma_auto_spec_u32_to_from_le_bytes();
            assert(bytes@.subrange(cur as int, cur as int + 4) == spec_u32_to_le_bytes(v));
        }
        match char_from_u32(v) {
            Some(c) => {
                let ghost opath = path@;
                push_char(&mut path, c);
                proof {
                    lemma_enc_chars_push(opath, c);
                    assert(enc_char(c) == spec_u32_to_le_bytes(v));
                    assert(bytes@.subrange(p3 as int, cur as int + 4) =~= bytes@.subrange(
                        p3 as int,
                        cur as int,
                    ) + bytes@.subrange(cur as int, cur as int + 4));
                }
                cur = cur + 4;
                j += 1;
            },
            None => {
                proof {
                    lemma_auto_spec_u32_to_from_le_bytes();
                    assert forall|q: QueryRecord, rest: Seq<u8>| record_wf(q) implies enc_record(q)
                        + rest != bytes@.skip(pos as int) by {
                        if enc_record(q) + rest == bytes@.skip(pos as int) {
                            lemma_skip_layout(bytes@, pos as int, q, rest);
                            assert(q.data.len() as u32 == d32);
                            assert(q.data.len() == d);
                            assert(q.path.len() as u32 == m32);
                            assert(q.path.len() == m);
                            assert(bytes@.subrange(
                                pos as int + 8 + d + 4 * j,
                                pos as int + 12 + d + 4 * j,
                            ) == spec_u32_to_le_bytes(q.path[j as int] as u32));
                            assert(cur as int == pos as int + 8 + d + 4 * j);
                            assert(v == q.path[j as int] as u32);
                            vstd::utf8::char_is_scalar(q.path[j as int]);
                        }
                    }
                }
                return None;
            },
        }
    }
    if len - cur < 9 {
        proof {
            lemma_auto_spec_u32_to_from_le_bytes();
            assert forall|q: QueryRecord, rest: Seq<u8>| record_wf(q) implies enc_record(q) + rest
                != bytes@.skip(pos as int) by {
                if enc_record(q) + rest == bytes@.skip(pos as int) {
                    lemma_skip_layout(bytes@, pos as int, q, rest);
                    assert(q.data.len() as u32 == d32);
                    assert(q.data.len() == d);
                    assert(q.path.len() as u32 == m32);
                    assert(q.path.len() == m);
                }
            }
        }
        return None;
    }
    let hu = u64_from_le_bytes(slice_subrange(bytes.as_slice(), cur, cur + 8));
    let p5 = cur + 8;
    proof {
        lemma_auto_spec_u64_to_from_le_bytes();
        assert(bytes@.subrange(cur as int, p5 as int) == spec_u64_to_le_bytes(hu));
    }
    let pb = bytes[p5];
    if pb > 1 {
        proof {
            lemma_auto_spec_u32_to_from_le_bytes();
            assert forall|q: QueryRecord, rest: Seq<u8>| record_wf(q) implies enc_record(q) + rest
                != bytes@.skip(pos as int) by {
                if enc_record(q) + rest == bytes@.skip(pos as int) {
                    lemma_skip_layout(bytes@, pos as int, q, rest);
                    assert(q.data.len() as u32 == d32);
                    assert(q.data.len() == d);
                    assert(q.path.len() as u32 == m32);
                    assert(q.path.len() == m);
                    assert(bytes@[pos as int + 16 + d + 4 * m] == (if q.prove {
                        1u8
                    } else {
                        0u8
                    }));
                    assert(p5 as int == pos as int + 16 + d + 4 * m);
                }
            }
        }
        return None;
    }
    let prove_flag = pb == 1;
    let end = p5 + 1;
    let rec = RequestQueryJSON { data, path, height: hu as i64, prove: prove_flag };
    proof {
        lemma_auto_spec_u32_to_from_le_bytes();
        lemma_auto_spec_u64_to_from_le_bytes();
        let h: u64 = hu;
        assert((h as i64) as u64 == h) by (bit_vector);
        assert(enc_bool(prove_flag) =~= bytes@.subrange(p5 as int, end as int));
        assert(bytes@.subrange(pos as int, end as int) =~= ((((bytes@.subrange(
            pos as int,
            p1 as int,
        ) + bytes@.subrange(p1 as int, p2 as int)) + bytes@.subrange(p2 as int, p3 as int))
            + bytes@.subrange(p3 as int, cur as int)) + bytes@.subrange(cur as int, p5 as int))
            + bytes@.subrange(p5 as int, end as int));
        assert(rec@.data == bytes@.subrange(p1 as int, p2 as int));
        assert(rec@.data.len() == d);
        assert(spec_u32_to_le_bytes(rec@.data.len() as u32) == bytes@.subrange(
            pos as int,
            p1 as int,
        ));
        assert(rec@.path.len() == m);
        assert(spec_u32_to_le_bytes(rec@.path.len() as u32) == bytes@.subrange(
            p2 as int,
            p3 as int,
        ));
        assert(enc_chars(rec@.path) == bytes@.subrange(p3 as int, cur as int));
        assert(spec_u64_to_le_bytes(rec@.height as u64) == bytes@.subrange(cur as int, p5 as int));
        assert(enc_record(rec@) == bytes@.subrange(pos as int, end as int));
    }
    Some((rec, end))
}

/// What the loop state of [`decode`] says about any batch whose encoding
/// is the whole input: the records parsed so far are its first records,
/// and the remaining bytes encode its remaining records.
proof fn lemma_decode_state(
    bytes: Seq<u8>,
    parsed: Seq<QueryRecord>,
    pos: int,
    n32: u32,
    rs: Seq<QueryRecord>,
)
    requires
        bytes.len() >= 4,
        4 <= pos <= bytes.len(),
        bytes.subrange(0, 4) == spec_u32_to_le_bytes(n32),
        forall|j: int| 0 <= j < parsed.len() ==> record_wf(#[trigger] parsed[j]),
        enc_records(parsed) == bytes.subrange(4, pos),
        parsed.len() <= n32,
        records_wf(rs),
        enc_packet(rs) == bytes,
    ensures
        rs.len() == n32,
        parsed == rs.take(parsed.len() as int),
        bytes.skip(pos) == enc_records(rs.skip(parsed.len() as int)),
{
    lemma_auto_spec_u32_to_from_le_bytes();
    assert(bytes.subrange(0, 4) =~= spec_u32_to_le_bytes(rs.len() as u32));
    assert(rs.len() as u32 == n32);
    assert(rs.len() == n32);
    let k = parsed.len() as int;
    assert(rs =~= rs.take(k) + rs.skip(k));
    lemma_enc_records_concat(rs.take(k), rs.skip(k));
    assert(enc_records(rs) == enc_records(rs.take(k)) + enc_records(rs.skip(k)));
    assert(bytes.skip(4) =~= enc_records(rs));
    assert(bytes.skip(4) =~= enc_records(parsed) + bytes.skip(pos));
    assert(enc_records(parsed) + bytes.skip(pos) == enc_records(rs.take(k)) + enc_records(
        rs.skip(k),
    ));
    assert(forall|i: int| 0 <= i < rs.take(k).len() ==> record_wf(#[trigger] rs.take(k)[i]));
    lemma_enc_records_prefix(parsed, rs.take(k), bytes.skip(pos), enc_records(rs.skip(k)));
}

/// Decodes a canonical payload back into its wire records.  Succeeds
/// exactly on the byte sequences that are the encoding of some batch, and
/// then returns a batch whose encoding is the input.
pub fn decode(bytes: &Vec<u8>) -> (r: Option<Vec<RequestQueryJSON>>)
    ensures
        match r {
            Some(v) => records_wf(v.deep_view()) && enc_packet(v.deep_view()) == bytes@,
            None => forall|rs: Seq<QueryRecord>| records_wf(rs) ==> enc_packet(rs) != bytes@,
        },
{
    let len = bytes.len();
    if len < 4 {
        proof {
            lemma_auto_spec_u32_to_from_le_bytes();
            assert forall|rs: Seq<QueryRecord>| records_wf(rs) implies enc_packet(rs)
                != bytes@ by {
                assert(enc_packet(rs).len() >= 4);
            }
        }
        return None;
    }
    let n32 = u32_from_le_bytes(slice_subrange(bytes.as_slice(), 0, 4));
    let n = n32 as usize;
    proof {
        lemma_auto_spec_u32_to_from_le_bytes();
        assert(bytes@.subrange(0, 4) == spec_u32_to_le_bytes(n32));
    }
    let mut out: Vec<RequestQueryJSON> = Vec::new();
    let mut pos: usize = 4;
    let mut i: usize = 0;
    while i < n
        invariant
            len == bytes@.len(),
            len >= 4,
            4 <= pos <= len,
            n == n32 as usize,
            bytes@.subrange(0, 4) == spec_u32_to_le_bytes(n32),
            0 <= i <= n,
            out@.len() == i,
            out.deep_view().len() == i,
            forall|j: int| 0 <= j < i ==> record_wf(#[trigger] out.deep_view()[j]),
            enc_records(out.deep_view()) == bytes@.subrange(4, pos as int),
        decreases n - i,
    {
        match parse_record(bytes, pos) {
            Some(pr) => {
                let (rec, end) = pr;
                let ghost dv = out.deep_view();
                let ghost opos = pos as int;
                out.push(rec);
                pos = end;
                i += 1;
                proof {
                    assert(out.deep_view() =~= dv.push(rec@));
                    lemma_enc_records_push(dv, rec@);
                    assert(bytes@.subrange(4, end as int) =~= bytes@.subrange(4, opos)
                        + bytes@.subrange(opos, end as int));
                    assert(enc_records(out.deep_view()) == bytes@.subrange(4, pos as int));
                }
            },
            None => {
                proof {
                    assert forall|rs: Seq<QueryRecord>| records_wf(rs) implies enc_packet(rs)
                        != bytes@ by {
                        if enc_packet(rs) == bytes@ {
                            lemma_decode_state(bytes@, out.deep_view(), pos as int, n32, rs);
                            let k = i as int;
                            assert(rs.skip(k).len() > 0);
                            assert(enc_records(rs.skip(k)) == enc_record(rs.skip(k)[0])
                                + enc_records(rs.skip(k).drop_first()));
                            assert(record_wf(rs.skip(k)[0]));
                            assert(enc_record(rs.skip(k)[0]) + enc_records(rs.skip(k).drop_first())
                                == bytes@.skip(pos as int));
                        }
                    }
                }
                return None;
            },
        }
    }
    if pos != len {
        proof {
            assert forall|rs: Seq<QueryRecord>| records_wf(rs) implies enc_packet(rs)
                != bytes@ by {
                if enc_packet(rs) == bytes@ {
                    lemma_decode_state(bytes@, out.deep_view(), pos as int, n32, rs);
                    assert(rs.skip(n as int) =~= Seq::<QueryRecord>::empty());
                    assert(bytes@.skip(pos as int).len() == 0);
                }
            }
        }
        return None;
    }
    proof {
        assert(enc_packet(out.deep_view()) =~= spec_u32_to_le_bytes(n32) + enc_records(
            out.deep_view(),
        ));
        assert(bytes@ =~= bytes@.subrange(0, 4) + bytes@.subrange(4, len as int));
        assert(enc_packet(out.deep_view()) == bytes@);
    }
    Some(out)
}

/// Round-trip stability of the canonical payload: decoding an encoded
/// batch can only yield that batch again, so re-encoding what was decoded
/// reproduces the identical bytes.  `decode` promises of any batch it
/// returns that its encoding is the input bytes; this pins that batch down.
pub proof fn lemma_round_trip(rs: Seq<QueryRecord>, decoded: Seq<QueryRecord>)
    requires
        records_wf(rs),
        records_wf(decoded),
        enc_packet(decoded) == enc_packet(rs),
    ensures
        decoded == rs,
{
    lemma_enc_packet_injective(decoded, rs);
}

} // verus!
