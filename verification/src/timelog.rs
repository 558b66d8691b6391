//! The record arithmetic of the work-time log.
//!
//! The time-tracking builtin keeps two CSV logs: one of session start
//! stamps and one of finished work spans, whose third field holds the
//! span's length as `H:MM`. The functions here parse and render that
//! duration form, total a log, and price the total at 1500 per hour and
//! 25 per minute — which the library proves is exactly 25 per minute
//! worked ([`lemma_salary_per_minute`]).

use vstd::prelude::*;
use vstd::arithmetic::div_mod::lemma_fundamental_div_mod;
use vstd::slice::slice_subrange;
use vstd::slice::slice_to_vec;

verus! {

/// The fields of one record, as byte sequences.
pub open spec fn fields_view(rec: Vec<Vec<u8>>) -> Seq<Seq<u8>> {
    rec@.map_values(|f: Vec<u8>| f@)
}

/// The records of one log, as sequences of byte sequences.
pub open spec fn records_view(rs: Vec<Vec<Vec<u8>>>) -> Seq<Seq<Seq<u8>>> {
    rs@.map_values(|rec: Vec<Vec<u8>>| fields_view(rec))
}

/// An ASCII decimal digit.
pub open spec fn is_digit(b: u8) -> bool {
    48 <= b <= 57
}

/// Every byte of `s` is a decimal digit.
pub open spec fn all_digits(s: Seq<u8>) -> bool {
    forall|i: int| 0 <= i < s.len() ==> is_digit(#[trigger] s[i])
}

/// The number a digit string denotes, most significant digit first.
pub open spec fn digits_val(s: Seq<u8>) -> nat
    decreases s.len(),
{
    if s.len() == 0 {
        0
    } else {
        digits_val(s.drop_last()) * 10 + (s.last() - 48) as nat
    }
}

/// A digit string denotes at least as much as any of its prefixes.
proof fn lemma_digits_prefix_le(s: Seq<u8>, j: int)
    requires
        all_digits(s),
        0 <= j <= s.len(),
    ensures
        digits_val(s.take(j)) <= digits_val(s),
    decreases s.len(),
{
    if j == s.len() {
        assert(s.take(j) =~= s);
    } else {
        assert(all_digits(s.drop_last())) by {
            assert(forall|i: int| 0 <= i < s.len() - 1 ==> #[trigger] s.drop_last()[i] == s[i]);
        }
        lemma_digits_prefix_le(s.drop_last(), j);
        assert(s.drop_last().take(j) =~= s.take(j));
        assert(digits_val(s.drop_last()) * 10 >= digits_val(s.drop_last()));
    }
}

/// Parses an unsigned decimal digit string. The number comes back exactly
/// when the string is non-empty, all digits, and the number fits; a `None`
/// means one of those failed.
pub fn parse_digits(s: &[u8]) -> (r: Option<u64>)
    ensures
        match r {
            Some(v) => s@.len() > 0 && all_digits(s@) && v == digits_val(s@),
            None => s@.len() == 0 || !all_digits(s@) || digits_val(s@) > u64::MAX,
        },
{
    if s.len() == 0 {
        return None;
    }
    let mut acc: u64 = 0;
    let mut i: usize = 0;
    while i < s.len()
        invariant
            0 < s@.len(),
            0 <= i <= s@.len(),
            all_digits(s@.take(i as int)),
            acc == digits_val(s@.take(i as int)),
        decreases s@.len() - i,
    {
        let b = s[i];
        if b < 48 || b > 57 {
            assert(!all_digits(s@));
            return None;
        }
        let d = (b - 48) as u64;
        proof {
            assert(s@.take(i + 1).drop_last() =~= s@.take(i as int));
            assert(s@.take(i + 1).last() == s@[i as int]);
            assert(all_digits(s@.take(i + 1))) by {
                assert(forall|k: int| 0 <= k < i ==> #[trigger] s@.take(i + 1)[k]
                    == s@.take(i as int)[k]);
            }
        }
        let next = match acc.checked_mul(10) {
            Some(x) => x.checked_add(d),
            None => None,
        };
        match next {
            Some(x) => {
                acc = x;
            },
            None => {
                proof {
                    assert(digits_val(s@.take(i + 1)) > u64::MAX);
                    if all_digits(s@) {
                        lemma_digits_prefix_le(s@, i + 1);
                    }
                }
                return None;
            },
        }
        i = i + 1;
    }
    proof {
        assert(s@.take(s@.len() as int) =~= s@);
    }
    Some(acc)
}

/// The index of the first colon in `s`, or `s.len()` if there is none.
pub open spec fn colon_pos(s: Seq<u8>) -> nat
    decreases s.len(),
{
    if s.len() == 0 {
        0
    } else if s[0] == 58 {
        0
    } else {
        1 + colon_pos(s.drop_first())
    }
}

/// What [`colon_pos`] finds: no colon stands before it, and it points at a
/// colon whenever one exists.
proof fn lemma_colon_pos(s: Seq<u8>)
    ensures
        colon_pos(s) <= s.len(),
        forall|k: int| 0 <= k < colon_pos(s) ==> s[k] != 58,
        colon_pos(s) < s.len() ==> s[colon_pos(s) as int] == 58,
    decreases s.len(),
{
    if s.len() == 0 {
    } else if s[0] == 58 {
    } else {
        lemma_colon_pos(s.drop_first());
        assert forall|k: int| 0 <= k < colon_pos(s) implies s[k] != 58 by {
            if k >= 1 {
                assert(s.drop_first()[k - 1] == s[k]);
            }
        }
    }
}

/// The minutes a duration field of the form `H:MM` denotes: the digits
/// before the first colon are hours, the digits after it are minutes.
/// Malformed fields denote nothing.
pub open spec fn spec_duration_minutes(s: Seq<u8>) -> Option<nat> {
    let j = colon_pos(s) as int;
    let h = s.take(j);
    let m = s.skip(j + 1);
    if j < s.len() && h.len() > 0 && all_digits(h) && m.len() > 0 && all_digits(m) {
        Some(digits_val(h) * 60 + digits_val(m))
    } else {
        None
    }
}

/// Parses a duration field. The minute count comes back exactly when the
/// field is well formed and the count fits; a malformed field, or one whose
/// count does not fit, yields `None`.
pub fn parse_duration(s: &[u8]) -> (r: Option<u64>)
    ensures
        match r {
            Some(v) => spec_duration_minutes(s@) == Some(v as nat),
            None => spec_duration_minutes(s@) is None
                || spec_duration_minutes(s@)->Some_0 > u64::MAX,
        },
{
    proof {
        lemma_colon_pos(s@);
    }
    let mut j: usize = 0;
    while j < s.len() && s[j] != 58
        invariant
            0 <= j <= s@.len(),
            forall|k: int| 0 <= k < j ==> s@[k] != 58,
        decreases s@.len() - j,
    {
        j = j + 1;
    }
    proof {
        assert(colon_pos(s@) == j);
    }
    if j == s.len() {
        return None;
    }
    let h = slice_subrange(s, 0, j);
    let m = slice_subrange(s, j + 1, s.len());
    proof {
        assert(h@ =~= s@.take(j as int));
        assert(m@ =~= s@.skip(j + 1));
    }
    let hv = match parse_digits(h) {
        Some(v) => v,
        None => {
            proof {
                if s@.take(j as int).len() > 0 && all_digits(s@.take(j as int)) {
                    assert(digits_val(s@.take(j as int)) > u64::MAX);
                }
            }
            return None;
        },
    };
    let mv = match parse_digits(m) {
        Some(v) => v,
        None => {
            return None;
        },
    };
    let total = match hv.checked_mul(60) {
        Some(x) => x.checked_add(mv),
        None => None,
    };
    match total {
        Some(t) => Some(t),
        None => {
            return None;
        },
    }
}

/// The decimal digit string of `n`, without leading zeros (`0` itself is
/// the single digit `0`).
pub open spec fn dec_digits(n: nat) -> Seq<u8>
    decreases n,
{
    if n < 10 {
        seq![(48 + n) as u8]
    } else {
        dec_digits(n / 10).push((48 + n % 10) as u8)
    }
}

/// Renders `n` as its decimal digit string.
pub fn render_u64(n: u64) -> (r: Vec<u8>)
    ensures
        r@ == dec_digits(n as nat),
    decreases n,
{
    if n < 10 {
        let mut v: Vec<u8> = Vec::new();
        v.push(48 + n as u8);
        proof {
            assert(v@ =~= dec_digits(n as nat));
        }
        v
    } else {
        let mut v = render_u64(n / 10);
        v.push(48 + (n % 10) as u8);
        proof {
            assert(v@ =~= dec_digits(n as nat));
        }
        v
    }
}

/// A minute count rendered as two digits, zero-padded.
pub open spec fn pad2(m: nat) -> Seq<u8> {
    if m < 10 {
        seq![48u8] + dec_digits(m)
    } else {
        dec_digits(m)
    }
}

/// A duration of `total` minutes in the log's `H:MM` form: the whole hours,
/// a colon, and the leftover minutes zero-padded to two digits.
pub open spec fn spec_format_duration(total: nat) -> Seq<u8> {
    dec_digits(total / 60) + seq![58u8] + pad2(total % 60)
}

/// Renders a minute count in the log's `H:MM` form.
pub fn format_duration(total: u64) -> (r: Vec<u8>)
    ensures
        r@ == spec_format_duration(total as nat),
{
    let mut out = render_u64(total / 60);
    out.push(58);
    let m = total % 60;
    if m < 10 {
        out.push(48);
    }
    let mut md = render_u64(m);
    out.append(&mut md);
    proof {
        assert(total as nat / 60 == (total / 60) as nat);
        assert(total as nat % 60 == (total % 60) as nat);
        assert(out@ =~= spec_format_duration(total as nat));
    }
    out
}

/// A rendered number is one or more digits — so it never holds a colon.
proof fn lemma_dec_digits_wellformed(n: nat)
    ensures
        dec_digits(n).len() >= 1,
        all_digits(dec_digits(n)),
    decreases n,
{
    if n < 10 {
        assert(dec_digits(n)[0] == (48 + n) as u8);
    } else {
        lemma_dec_digits_wellformed(n / 10);
        let prev = dec_digits(n / 10);
        let d = (48 + n % 10) as u8;
        assert forall|i: int| 0 <= i < prev.push(d).len() implies is_digit(
            #[trigger] prev.push(d)[i],
        ) by {
            if i < prev.len() {
                assert(prev.push(d)[i] == prev[i]);
            }
        }
    }
}

/// Rendering a number and reading the digits back is the identity.
proof fn lemma_digits_val_of_dec(n: nat)
    ensures
        digits_val(dec_digits(n)) == n,
    decreases n,
{
    if n < 10 {
        assert(dec_digits(n).drop_last() =~= Seq::<u8>::empty());
        assert(digits_val(Seq::<u8>::empty()) == 0);
        assert(dec_digits(n).last() == (48 + n) as u8);
        assert((48 + n) as u8 == 48 + n);
    } else {
        lemma_digits_val_of_dec(n / 10);
        let prev = dec_digits(n / 10);
        let d = (48 + n % 10) as u8;
        assert(prev.push(d).drop_last() =~= prev);
        assert(prev.push(d).last() == d);
        lemma_fundamental_div_mod(n as int, 10);
    }
}

/// The zero-padded minute field is all digits too, and reads back as the
/// minute count.
proof fn lemma_pad2_wellformed(m: nat)
    requires
        m < 60,
    ensures
        pad2(m).len() >= 1,
        all_digits(pad2(m)),
        digits_val(pad2(m)) == m,
{
    lemma_dec_digits_wellformed(m);
    lemma_digits_val_of_dec(m);
    if m < 10 {
        let p = seq![48u8] + dec_digits(m);
        assert(pad2(m) == p);
        assert(p =~= seq![48u8, (48 + m) as u8]);
        assert(p.drop_last() =~= seq![48u8]);
        assert(seq![48u8].drop_last() =~= Seq::<u8>::empty());
        assert(digits_val(Seq::<u8>::empty()) == 0);
        assert(digits_val(seq![48u8]) == 0);
        assert(p.last() == (48 + m) as u8);
        assert((48 + m) as u8 == 48 + m);
        assert(digits_val(p) == digits_val(seq![48u8]) * 10 + m);
    }
}

/// Where the first colon of `s` stands, exactly: before `m` there is none
/// and at `m` there is one.
proof fn lemma_colon_pos_unique(s: Seq<u8>, m: int)
    requires
        0 <= m < s.len(),
        forall|k: int| 0 <= k < m ==> s[k] != 58,
        s[m] == 58,
    ensures
        colon_pos(s) == m,
{
    lemma_colon_pos(s);
    let cp = colon_pos(s) as int;
    if cp < m {
        assert(s[cp] != 58);
        assert(s[cp] == 58);
    }
    if cp > m {
        assert(s[m] != 58);
    }
}

/// The duration forms are inverse: rendering any minute count as `H:MM`
/// and parsing the field back yields that count. Every total the library
/// writes into the work log can be totalled again unchanged.
pub proof fn lemma_duration_round_trip(total: nat)
    ensures
        spec_duration_minutes(spec_format_duration(total)) == Some(total),
{
    let h = dec_digits(total / 60);
    let p = pad2(total % 60);
    let s = spec_format_duration(total);
    lemma_dec_digits_wellformed(total / 60);
    lemma_digits_val_of_dec(total / 60);
    lemma_pad2_wellformed(total % 60);
    let j = h.len() as int;
    assert forall|k: int| 0 <= k < j implies s[k] != 58 by {
        assert(s[k] == h[k]);
        assert(is_digit(h[k]));
    }
    assert(s[j] == 58);
    lemma_colon_pos_unique(s, j);
    assert(s.take(j) =~= h);
    assert(s.skip(j + 1) =~= p);
    lemma_fundamental_div_mod(total as int, 60);
}

/// The minutes one work-log record reports: its third field, read as a
/// duration. Records with fewer than three fields report nothing.
pub open spec fn rec_minutes(rec: Seq<Seq<u8>>) -> Option<nat> {
    if rec.len() < 3 {
        None
    } else {
        spec_duration_minutes(rec[2])
    }
}

/// The total minutes a work log reports, or nothing as soon as one record
/// is malformed.
pub open spec fn spec_total_minutes(rs: Seq<Seq<Seq<u8>>>) -> Option<nat>
    decreases rs.len(),
{
    if rs.len() == 0 {
        Some(0)
    } else {
        match rec_minutes(rs[0]) {
            None => None,
            Some(v) => match spec_total_minutes(rs.drop_first()) {
                None => None,
                Some(t) => Some(v + t),
            },
        }
    }
}

/// The pay for `total` minutes of work: 1500 per whole hour and 25 per
/// leftover minute.
pub open spec fn spec_salary(total: nat) -> nat {
    (total / 60) * 1500 + (total % 60) * 25
}

/// The hourly rate of 1500 with 25 per leftover minute prices every worked
/// minute equally: the pay is exactly 25 per minute.
pub proof fn lemma_salary_per_minute(total: nat)
    ensures
        spec_salary(total) == 25 * total,
{
    lemma_fundamental_div_mod(total as int, 60);
}

/// Totals a parsed work log: the whole hours, the leftover minutes, and
/// the pay for the total, or `None` as soon as one record is malformed or
/// the pay leaves the machine's range.
pub fn total_work_summary(records: &Vec<Vec<Vec<u8>>>) -> (r: Option<(u64, u64, u64)>)
    ensures
        match spec_total_minutes(records_view(*records)) {
            None => r is None,
            Some(t) => if spec_salary(t) <= u64::MAX {
                r == Some(((t / 60) as u64, (t % 60) as u64, spec_salary(t) as u64))
            } else {
                r is None
            },
        },
{
    let ghost rsv = records_view(*records);
    let mut tot: u64 = 0;
    let mut i: usize = 0;
    proof {
        assert(rsv.skip(0) =~= rsv);
    }
    while i < records.len()
        invariant
            0 <= i <= records@.len(),
            rsv == records_view(*records),
            rsv.len() == records@.len(),
            match spec_total_minutes(rsv.skip(i as int)) {
                None => spec_total_minutes(rsv) is None,
                Some(rest) => spec_total_minutes(rsv) == Some((tot + rest) as nat),
            },
        decreases records@.len() - i,
    {
        let rec = &records[i];
        proof {
            assert(rsv.skip(i as int)[0] == rsv[i as int]);
            assert(rsv.skip(i as int).drop_first() =~= rsv.skip(i + 1));
            assert(rsv[i as int] == fields_view(*rec));
        }
        if rec.len() < 3 {
            return None;
        }
        proof {
            assert(fields_view(*rec)[2] == rec@[2]@);
        }
        match parse_duration(rec[2].as_slice()) {
            None => {
                proof {
                    lemma_salary_per_minute(spec_total_minutes(rsv)->Some_0);
                }
                return None;
            },
            Some(v) => {
                match tot.checked_add(v) {
                    None => {
                        proof {
                            lemma_salary_per_minute(spec_total_minutes(rsv)->Some_0);
                        }
                        return None;
                    },
                    Some(x) => {
                        tot = x;
                    },
                }
            },
        }
        i = i + 1;
    }
    proof {
        assert(rsv.skip(rsv.len() as int) =~= Seq::<Seq<Seq<u8>>>::empty());
    }
    let t = tot;
    match t.checked_mul(25) {
        None => {
            proof {
                lemma_salary_per_minute(t as nat);
            }
            None
        },
        Some(_) => {
            proof {
                lemma_salary_per_minute(t as nat);
                lemma_fundamental_div_mod(t as int, 60);
            }
            let h = t / 60;
            let m = t % 60;
            let sal = h * 1500 + m * 25;
            Some((h, m, sal))
        },
    }
}

/// What the CSV encoder produces for one record: the fields joined by
/// commas, quoted where the format requires it, with the record
/// terminator.
pub uninterp spec fn csv_line_of(fields: Seq<Seq<u8>>) -> Seq<u8>;

/// Relies on `csv::Writer::write_record` (csv 1.4, default builder,
/// writing into a byte vector): the encoded form of one record, a function
/// of the fields alone.
#[verifier::external_body]
fn csv_encode_record(fields: &Vec<Vec<u8>>) -> (r: Vec<u8>)
    ensures
        r@ == csv_line_of(fields_view(*fields)),
{
    let mut w = csv::Writer::from_writer(Vec::new());
    let _ = w.write_record(fields);
    match w.into_inner() {
        Ok(v) => v,
        Err(_) => Vec::new(),
    }
}

/// What the CSV reader finds in a log: the records after the header row,
/// in order, each a sequence of fields.
pub uninterp spec fn csv_records_of(data: Seq<u8>) -> Seq<Seq<Seq<u8>>>;

/// Relies on `csv::Reader::byte_records` (csv 1.4, default builder, so the
/// first row is a header and is not among the records): the records of
/// `data`, a function of the bytes alone; rows that fail to decode are
/// left out.
#[verifier::external_body]
fn csv_parse_records(data: &[u8]) -> (r: Vec<Vec<Vec<u8>>>)
    ensures
        records_view(r) == csv_records_of(data@),
{
    let mut out: Vec<Vec<Vec<u8>>> = Vec::new();
    let mut rdr = csv::Reader::from_reader(data);
    for rec in rdr.byte_records() {
        match rec {
            Ok(fields) => out.push(fields.iter().map(|f| f.to_vec()).collect()),
            Err(_) => {},
        }
    }
    out
}

/// The seconds since the epoch that an RFC 3339 stamp denotes, or `None`
/// for text that is no such stamp.
pub uninterp spec fn rfc3339_epoch_of(s: Seq<u8>) -> Option<i64>;

/// Relies on `chrono::DateTime::parse_from_rfc3339` and
/// `chrono::DateTime::timestamp` (chrono 0.4): the stamp carries its own
/// offset, so the epoch seconds are a function of the text alone.
#[verifier::external_body]
fn parse_rfc3339_epoch(s: &[u8]) -> (r: Option<i64>)
    ensures
        r == rfc3339_epoch_of(s@),
{
    match core::str::from_utf8(s) {
        Ok(t) => chrono::DateTime::parse_from_rfc3339(t).ok().map(|d| d.timestamp()),
        Err(_) => None,
    }
}

/// The single field of the record that resets the start-time log when the
/// session ends; it doubles as the log's header row.
pub open spec fn start_header() -> Seq<u8> {
    seq![('s' as u8), ('t' as u8), ('a' as u8), ('r' as u8), ('t' as u8)]
}

/// The encoded record that the session-exit builtin writes over the
/// start-time log.
pub fn session_reset_entry() -> (r: Vec<u8>)
    ensures
        r@ == csv_line_of(seq![start_header()]),
{
    let mut f: Vec<u8> = Vec::new();
    f.push('s' as u8);
    f.push('t' as u8);
    f.push('a' as u8);
    f.push('r' as u8);
    f.push('t' as u8);
    proof {
        assert(f@ =~= start_header());
    }
    let ghost fv = f@;
    let mut fields: Vec<Vec<u8>> = Vec::new();
    fields.push(f);
    proof {
        assert(fields_view(fields) =~= seq![fv]);
    }
    csv_encode_record(&fields)
}

/// The encoded record that starting a work span appends to the start-time
/// log: the span's start stamp as its single field.
pub fn work_start_entry(now_stamp: Vec<u8>) -> (r: Vec<u8>)
    ensures
        r@ == csv_line_of(seq![now_stamp@]),
{
    let ghost sv = now_stamp@;
    let mut fields: Vec<Vec<u8>> = Vec::new();
    fields.push(now_stamp);
    proof {
        assert(fields_view(fields) =~= seq![sv]);
    }
    csv_encode_record(&fields)
}

/// The stamp the session-end computation starts from: the first field of
/// the last record of the start log, if the log has one.
pub open spec fn spec_last_start(rs: Seq<Seq<Seq<u8>>>) -> Option<Seq<u8>> {
    if rs.len() == 0 {
        None
    } else if rs.last().len() == 0 {
        None
    } else {
        Some(rs.last()[0])
    }
}

/// Picks the last start stamp out of a parsed start log.
pub fn last_start_field(records: &Vec<Vec<Vec<u8>>>) -> (r: Option<Vec<u8>>)
    ensures
        match r {
            Some(f) => spec_last_start(records_view(*records)) == Some(f@),
            None => spec_last_start(records_view(*records)) is None,
        },
{
    if records.len() == 0 {
        return None;
    }
    let rec = &records[records.len() - 1];
    proof {
        assert(records_view(*records).last() == fields_view(*rec));
    }
    if rec.len() == 0 {
        return None;
    }
    proof {
        assert(fields_view(*rec)[0] == rec@[0]@);
    }
    Some(slice_to_vec(rec[0].as_slice()))
}

/// The whole minutes between two epoch stamps; nothing when the end lies
/// before the start or the span leaves the machine's range.
pub open spec fn spec_elapsed_minutes(start: i64, end: i64) -> Option<nat> {
    if start <= end && end - start <= i64::MAX {
        Some(((end - start) / 60) as nat)
    } else {
        None
    }
}

/// The whole minutes worked between the start and end stamps.
pub fn elapsed_minutes(start: i64, end: i64) -> (r: Option<u64>)
    ensures
        match r {
            Some(v) => spec_elapsed_minutes(start, end) == Some(v as nat),
            None => spec_elapsed_minutes(start, end) is None,
        },
{
    if start > end {
        return None;
    }
    match end.checked_sub(start) {
        None => None,
        Some(d) => Some((d / 60) as u64),
    }
}

/// The fields of the record that ends a work span: the span's start stamp
/// as the log recorded it, the end stamp, and the span's length as `H:MM`
/// — or nothing when the start log is empty, its last stamp is not a valid
/// RFC 3339 time, or the end lies before the start.
pub open spec fn spec_work_end_fields(
    recs: Seq<Seq<Seq<u8>>>,
    now_epoch: i64,
    now_stamp: Seq<u8>,
) -> Option<Seq<Seq<u8>>> {
    match spec_last_start(recs) {
        None => None,
        Some(field) => match rfc3339_epoch_of(field) {
            None => None,
            Some(st) => match spec_elapsed_minutes(st, now_epoch) {
                None => None,
                Some(mins) => Some(seq![field, now_stamp, spec_format_duration(mins)]),
            },
        },
    }
}

/// The encoded record that ending a work span appends to the work log,
/// computed from the raw start log and the present moment.
pub fn work_end_entry(start_log: &[u8], now_epoch: i64, now_stamp: Vec<u8>) -> (r: Option<
    Vec<u8>,
>)
    ensures
        match spec_work_end_fields(csv_records_of(start_log@), now_epoch, now_stamp@) {
            None => r is None,
            Some(fields) => r is Some && r->Some_0@ == csv_line_of(fields),
        },
{
    let recs = csv_parse_records(start_log);
    let field = match last_start_field(&recs) {
        None => {
            return None;
        },
        Some(f) => f,
    };
    let st = match parse_rfc3339_epoch(field.as_slice()) {
        None => {
            return None;
        },
        Some(v) => v,
    };
    let mins = match elapsed_minutes(st, now_epoch) {
        None => {
            return None;
        },
        Some(m) => m,
    };
    let dur = format_duration(mins);
    let ghost fieldv = field@;
    let ghost stampv = now_stamp@;
    let ghost durv = dur@;
    let mut fields: Vec<Vec<u8>> = Vec::new();
    fields.push(field);
    fields.push(now_stamp);
    fields.push(dur);
    proof {
        assert(fields_view(fields) =~= seq![fieldv, stampv, durv]);
    }
    Some(csv_encode_record(&fields))
}

/// The session summary the work builtin prints, computed from the raw work
/// log: total hours, leftover minutes, and the pay for the total.
pub fn work_summary(work_log: &[u8]) -> (r: Option<(u64, u64, u64)>)
    ensures
        match spec_total_minutes(csv_records_of(work_log@)) {
            None => r is None,
            Some(t) => if spec_salary(t) <= u64::MAX {
                r == Some(((t / 60) as u64, (t % 60) as u64, spec_salary(t) as u64))
            } else {
                r is None
            },
        },
{
    let recs = csv_parse_records(work_log);
    total_work_summary(&recs)
}

/// The work builtin's subcommands.
#[derive(Clone, Copy, PartialEq, Eq, Structural, Debug)]
pub enum WorkCmd {
    /// `in`: record the start of a work span.
    Start,
    /// `out`: close the span and append it to the work log.
    End,
    /// `ed`: total the work log and price it.
    Summary,
}

/// The name of the span-start subcommand, `in`.
pub open spec fn name_in() -> Seq<u8> {
    seq![('i' as u8), ('n' as u8)]
}

/// The name of the span-end subcommand, `out`.
pub open spec fn name_out() -> Seq<u8> {
    seq![('o' as u8), ('u' as u8), ('t' as u8)]
}

/// The name of the summary subcommand, `ed`.
pub open spec fn name_ed() -> Seq<u8> {
    seq![('e' as u8), ('d' as u8)]
}

/// The subcommand a work invocation asks for: exactly two tokens, the
/// second one of the three names. Anything else is a usage error.
pub open spec fn spec_work_command(args: Seq<Seq<u8>>) -> Option<WorkCmd> {
    if args.len() != 2 {
        None
    } else if args[1] == name_in() {
        Some(WorkCmd::Start)
    } else if args[1] == name_out() {
        Some(WorkCmd::End)
    } else if args[1] == name_ed() {
        Some(WorkCmd::Summary)
    } else {
        None
    }
}

/// Reads the subcommand out of the work builtin's argument vector.
pub fn work_command_of(argv: &Vec<Vec<u8>>) -> (r: Option<WorkCmd>)
    ensures
        r == spec_work_command(fields_view(*argv)),
{
    let ghost args = fields_view(*argv);
    if argv.len() != 2 {
        return None;
    }
    let a = argv[1].as_slice();
    proof {
        assert(args[1] == a@);
    }
    if a.len() == 2 && a[0] == ('i' as u8) && a[1] == ('n' as u8) {
        proof {
            assert(a@ =~= name_in());
        }
        Some(WorkCmd::Start)
    } else if a.len() == 3 && a[0] == ('o' as u8) && a[1] == ('u' as u8) && a[2] == ('t' as u8) {
        proof {
            assert(a@ =~= name_out());
        }
        Some(WorkCmd::End)
    } else if a.len() == 2 && a[0] == ('e' as u8) && a[1] == ('d' as u8) {
        proof {
            assert(a@ =~= name_ed());
        }
        Some(WorkCmd::Summary)
    } else {
        proof {
            assert(a@ != name_in());
            assert(a@ != name_out());
            assert(a@ != name_ed());
        }
        None
    }
}

} // verus!
