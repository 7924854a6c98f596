//! The dataset loader: delimited text in, a feature matrix and a label
//! vector out.
//!
//! The csv crate splits the text into records behind a trusted wrapper;
//! everything after that — the field-count check, the fixed-point number
//! parser and the label mapping — is verified, with `spec_load` saying
//! exactly which value or which error comes back for every record set.
use vstd::prelude::*;

use crate::fixed::SCALE;

verus! {

/// An error that aborts a load, identifying the offending row.
#[derive(Debug, PartialEq, Eq, Clone)]
pub enum LoadError {
    /// The reader itself rejected the text.
    CsvRead,
    /// A data row has fewer than six fields.
    MalformedRow { row: usize },
    /// A feature field is not a decimal number; names its place.
    InvalidNumber { row: usize, col: usize },
    /// The label field is absent from a row.  The field-count check
    /// runs first and already rejects such a row as malformed, so this
    /// kind is kept only to close the taxonomy.
    MissingLabel { row: usize },
    /// The label is none of the three recognised category strings.
    UnknownLabel { row: usize },
}

/// The fields of every data record of the text, under the csv crate's
/// reading (header row consumed and discarded), or nothing where the
/// reader rejects the text.
pub uninterp spec fn csv_rows(s: Seq<char>) -> Option<Seq<Seq<Seq<u8>>>>;

/// The field sequences a vector of field vectors stands for.
pub open spec fn view2b(m: Seq<Vec<u8>>) -> Seq<Seq<u8>> {
    Seq::new(m.len(), |i: int| m[i]@)
}

/// The record sequences a vector of records stands for.
pub open spec fn view3(m: Seq<Vec<Vec<u8>>>) -> Seq<Seq<Seq<u8>>> {
    Seq::new(m.len(), |i: int| view2b(m[i]@))
}

/// Relies on csv::ReaderBuilder and csv::Reader::records: the text is
/// split into data records (the header row is consumed and discarded,
/// and records may vary in width, so short rows reach the field-count
/// check), each record into its fields; a read error yields `None`.
#[verifier::external_body]
fn read_csv_records(data: &str) -> (r: Option<Vec<Vec<Vec<u8>>>>)
    ensures
        r is Some <==> csv_rows(data@) is Some,
        r matches Some(v) ==> csv_rows(data@) == Some(view3(v@)),
{
    let mut rdr = csv::ReaderBuilder::new().has_headers(true).flexible(true).from_reader(
        data.as_bytes(),
    );
    let mut rows: Vec<Vec<Vec<u8>>> = Vec::new();
    for rec in rdr.records() {
        match rec {
            Ok(r) => rows.push(r.iter().map(|f| f.as_bytes().to_vec()).collect()),
            Err(_) => return None,
        }
    }
    Some(rows)
}

/// Powers of ten, for the fractional digits of the parser.
pub open spec fn spec_pow10(k: int) -> int
    decreases k,
{
    if k <= 0 {
        1
    } else {
        10 * spec_pow10(k - 1)
    }
}

/// Caps a magnitude at `i64::MAX`, the parser's saturation bound.
pub open spec fn cap(x: int) -> int {
    if x > i64::MAX {
        i64::MAX as int
    } else {
        x
    }
}

/// The parser state: sign, whether a digit was seen, whether the point
/// was passed, how many fractional digits were taken, and the scaled
/// magnitude so far.
pub type ParseState = (bool, bool, bool, int, int);

/// One step of the decimal parser on byte `c` (`first` marks the first
/// byte, where a sign is allowed).
pub open spec fn spec_parse_step(st: Option<ParseState>, c: u8, first: bool) -> Option<
    ParseState,
> {
    match st {
        None => None,
        Some((neg, seen, frac, fcnt, mag)) => {
            if first && (c == 45 || c == 43) {
                Some((c == 45, seen, frac, fcnt, mag))
            } else if c == 46 && !frac {
                Some((neg, seen, true, fcnt, mag))
            } else if 48 <= c <= 57 {
                let d = (c - 48) as int;
                if !frac {
                    Some((neg, true, frac, fcnt, cap(mag * 10 + d * SCALE)))
                } else if fcnt < 6 {
                    Some((neg, true, frac, fcnt + 1, cap(mag + d * spec_pow10(5 - fcnt))))
                } else {
                    Some((neg, true, frac, fcnt, mag))
                }
            } else {
                None
            }
        },
    }
}

/// The parser state after the first `i` bytes.
pub open spec fn spec_parse_iter(b: Seq<u8>, i: int) -> Option<ParseState>
    decreases i,
{
    if i <= 0 {
        Some((false, false, false, 0, 0))
    } else {
        spec_parse_step(spec_parse_iter(b, i - 1), b[i - 1], i - 1 == 0)
    }
}

/// What `parse_fixed` returns: the fixed-point value of a decimal
/// numeral `[+-]? digits [. digits]?` holding at least one digit, its
/// magnitude saturated at `i64::MAX`, fractional digits beyond the sixth
/// ignored; `None` on anything else.
pub open spec fn spec_parse_fixed(b: Seq<u8>) -> Option<int> {
    match spec_parse_iter(b, b.len() as int) {
        None => None,
        Some((neg, seen, frac, fcnt, mag)) => if !seen {
            None
        } else if neg {
            Some(-mag)
        } else {
            Some(mag)
        },
    }
}

/// The parser's magnitude is always within `[0, i64::MAX]`.
pub proof fn lemma_parse_iter_bounds(b: Seq<u8>, i: int)
    ensures
        spec_parse_iter(b, i) matches Some(st) ==> 0 <= st.4 <= i64::MAX && 0 <= st.3 <= 6,
    decreases i,
{
    if i > 0 {
        lemma_parse_iter_bounds(b, i - 1);
        match spec_parse_iter(b, i - 1) {
            None => {},
            Some(st) => {
                if 48 <= b[i - 1] <= 57 && !st.2 {
                    assert(cap(st.4 * 10 + (b[i - 1] - 48) * SCALE) >= 0) by (nonlinear_arith)
                        requires
                            st.4 >= 0,
                            48 <= b[i - 1] <= 57,
                            SCALE == 1_000_000,
                    ;
                }
                if 48 <= b[i - 1] <= 57 && st.2 && st.3 < 6 {
                    lemma_pow10_pos(5 - st.3);
                    assert(cap(st.4 + (b[i - 1] - 48) * spec_pow10(5 - st.3)) >= 0)
                        by (nonlinear_arith)
                        requires
                            st.4 >= 0,
                            48 <= b[i - 1] <= 57,
                            spec_pow10(5 - st.3) > 0,
                    ;
                }
            },
        }
    }
}

/// Powers of ten are positive.
pub proof fn lemma_pow10_positive(k: int)
    ensures
        spec_pow10(k) > 0,
    decreases (if k > 0 {
        k
    } else {
        0
    }),
{
    if k > 0 {
        lemma_pow10_positive(k - 1);
    }
}

/// Powers of ten grow monotonically.
pub proof fn lemma_pow10_mono(a: int, c: int)
    requires
        a <= c,
    ensures
        0 < spec_pow10(a) <= spec_pow10(c),
    decreases c - a,
{
    lemma_pow10_positive(a);
    if a < c {
        lemma_pow10_mono(a, c - 1);
        lemma_pow10_positive(c - 1);
    }
}

/// Powers of ten are positive, and small ones stay below the scale.
pub proof fn lemma_pow10_pos(k: int)
    ensures
        spec_pow10(k) > 0,
        k <= 6 ==> spec_pow10(k) <= 1_000_000,
{
    lemma_pow10_mono(k, k);
    if k <= 6 {
        lemma_pow10_mono(k, 6);
        assert(spec_pow10(0) == 1);
        assert(spec_pow10(1) == 10);
        assert(spec_pow10(2) == 100);
        assert(spec_pow10(3) == 1000);
        assert(spec_pow10(4) == 10000);
        assert(spec_pow10(5) == 100000);
        assert(spec_pow10(6) == 1_000_000);
    }
}

/// A power of ten, for fractional digit weights.
fn pow10(k: usize) -> (r: i64)
    requires
        k <= 6,
    ensures
        r == spec_pow10(k as int),
        0 < r <= 1_000_000,
{
    proof {
        lemma_pow10_pos(k as int);
    }
    let mut r: i64 = 1;
    for t in 0..k
        invariant
            k <= 6,
            r == spec_pow10(t as int),
            0 < r <= 1_000_000,
    {
        proof {
            lemma_pow10_pos(t as int + 1);
        }
        r = r * 10;
    }
    r
}

/// Parses a decimal numeral into a fixed-point value: the verified
/// executable twin of `spec_parse_fixed`.
pub fn parse_fixed(b: &Vec<u8>) -> (r: Option<i64>)
    ensures
        r matches Some(v) ==> spec_parse_fixed(b@) == Some(v as int),
        r is None <==> spec_parse_fixed(b@) is None,
{
    let n = b.len();
    let mut neg = false;
    let mut seen = false;
    let mut frac = false;
    let mut fcnt: usize = 0;
    let mut mag: u64 = 0;
    for i in 0..n
        invariant
            n == b@.len(),
            spec_parse_iter(b@, i as int) == Some(
                (neg, seen, frac, fcnt as int, mag as int),
            ),
            0 <= mag <= i64::MAX,
            fcnt <= 6,
    {
        proof {
            lemma_parse_iter_bounds(b@, i as int + 1);
        }
        let c = b[i];
        if i == 0 && (c == 45 || c == 43) {
            neg = c == 45;
        } else if c == 46 && !frac {
            frac = true;
        } else if 48 <= c && c <= 57 {
            let d = (c - 48) as u64;
            if !frac {
                let wide: u128 = (mag as u128) * 10 + (d as u128) * (SCALE as u128);
                mag = if wide > i64::MAX as u128 {
                    i64::MAX as u64
                } else {
                    wide as u64
                };
                seen = true;
            } else if fcnt < 6 {
                let w = pow10(5 - fcnt);
                proof {
                    assert((d as int) * (w as int) <= 9_000_000) by (nonlinear_arith)
                        requires
                            0 <= d as int <= 9,
                            0 < w as int <= 1_000_000,
                    ;
                }
                let wide: u128 = (mag as u128) + (d as u128) * (w as u128);
                mag = if wide > i64::MAX as u128 {
                    i64::MAX as u64
                } else {
                    wide as u64
                };
                seen = true;
                fcnt = fcnt + 1;
            } else {
                seen = true;
            }
        } else {
            proof {
                lemma_parse_iter_none(b@, i as int + 1, n as int);
            }
            return None;
        }
    }
    if !seen {
        return None;
    }
    if neg {
        Some(-(mag as i64))
    } else {
        Some(mag as i64)
    }
}

/// Once the parser state is dead it stays dead.
pub proof fn lemma_parse_iter_none(b: Seq<u8>, i: int, n: int)
    requires
        0 < i <= n <= b.len(),
        spec_parse_iter(b, i) is None,
    ensures
        spec_parse_iter(b, n) is None,
    decreases n - i,
{
    if i < n {
        lemma_parse_iter_none(b, i + 1, n);
    }
}

/// The bytes of the three recognised label strings, by class index.
pub open spec fn spec_label_bytes(k: u8) -> Seq<u8> {
    if k == 0 {
        seq![73u8, 114u8, 105u8, 115u8, 45u8, 115u8, 101u8, 116u8, 111u8, 115u8, 97u8]
    } else if k == 1 {
        seq![
            73u8, 114u8, 105u8, 115u8, 45u8, 118u8, 101u8, 114u8, 115u8, 105u8, 99u8, 111u8,
            108u8, 111u8, 114u8,
        ]
    } else {
        seq![
            73u8, 114u8, 105u8, 115u8, 45u8, 118u8, 105u8, 114u8, 103u8, 105u8, 110u8, 105u8,
            99u8, 97u8,
        ]
    }
}

/// The class index a label field stands for, if it is one of the three
/// recognised category strings.
pub open spec fn spec_label_of(b: Seq<u8>) -> Option<u8> {
    if b == spec_label_bytes(0) {
        Some(0u8)
    } else if b == spec_label_bytes(1) {
        Some(1u8)
    } else if b == spec_label_bytes(2) {
        Some(2u8)
    } else {
        None
    }
}

/// Label strings round-trip: the bytes of class `k` map back to `k`,
/// and a field recognised as class `k` holds exactly those bytes.
pub proof fn lemma_label_round_trip(b: Seq<u8>, k: u8)
    ensures
        k < 3 ==> spec_label_of(spec_label_bytes(k)) == Some(k),
        spec_label_of(b) == Some(k) ==> k < 3 && b == spec_label_bytes(k),
{
    assert(spec_label_bytes(0).len() == 11);
    assert(spec_label_bytes(1).len() == 15);
    assert(spec_label_bytes(2).len() == 14);
}

/// The bytes of the label string of class `k`.
pub fn label_bytes(k: u8) -> (r: Vec<u8>)
    requires
        k < 3,
    ensures
        r@ == spec_label_bytes(k),
{
    let r: Vec<u8> = if k == 0 {
        vec![73u8, 114, 105, 115, 45, 115, 101, 116, 111, 115, 97]
    } else if k == 1 {
        vec![73u8, 114, 105, 115, 45, 118, 101, 114, 115, 105, 99, 111, 108, 111, 114]
    } else {
        vec![73u8, 114, 105, 115, 45, 118, 105, 114, 103, 105, 110, 105, 99, 97]
    };
    proof {
        assert(r@ =~= spec_label_bytes(k));
    }
    r
}

/// Whether two byte vectors hold the same bytes.
pub fn eq_bytes(a: &Vec<u8>, b: &Vec<u8>) -> (r: bool)
    ensures
        r <==> a@ == b@,
{
    if a.len() != b.len() {
        return false;
    }
    let n = a.len();
    for i in 0..n
        invariant
            n == a@.len() == b@.len(),
            forall|t: int| 0 <= t < i ==> a@[t] == b@[t],
    {
        if a[i] != b[i] {
            return false;
        }
    }
    proof {
        assert(a@ =~= b@);
    }
    true
}

/// Maps a label field to its class index, if recognised.
pub fn label_of(b: &Vec<u8>) -> (r: Option<u8>)
    ensures
        r == spec_label_of(b@),
{
    let s0 = label_bytes(0);
    if eq_bytes(b, &s0) {
        return Some(0);
    }
    let s1 = label_bytes(1);
    if eq_bytes(b, &s1) {
        return Some(1);
    }
    let s2 = label_bytes(2);
    if eq_bytes(b, &s2) {
        return Some(2);
    }
    None
}


/// What one data row yields: its four feature values and its class, or
/// the error that rejects it.  The first failing column wins.
pub open spec fn spec_parse_row(row: Seq<Seq<u8>>, idx: usize) -> Result<
    (Seq<i64>, u8),
    LoadError,
> {
    if row.len() < 6 {
        Err(LoadError::MalformedRow { row: idx })
    } else {
        match (
            spec_parse_fixed(row[1]),
            spec_parse_fixed(row[2]),
            spec_parse_fixed(row[3]),
            spec_parse_fixed(row[4]),
        ) {
            (Some(v1), Some(v2), Some(v3), Some(v4)) => match spec_label_of(row[5]) {
                Some(k) => Ok((seq![v1 as i64, v2 as i64, v3 as i64, v4 as i64], k)),
                None => Err(LoadError::UnknownLabel { row: idx }),
            },
            (None, _, _, _) => Err(LoadError::InvalidNumber { row: idx, col: 1 }),
            (_, None, _, _) => Err(LoadError::InvalidNumber { row: idx, col: 2 }),
            (_, _, None, _) => Err(LoadError::InvalidNumber { row: idx, col: 3 }),
            (_, _, _, None) => Err(LoadError::InvalidNumber { row: idx, col: 4 }),
        }
    }
}

/// What the first `i` rows load to: the feature matrix and label vector,
/// or the first error.  Loading is fail-fast.
pub open spec fn spec_load_prefix(rows: Seq<Seq<Seq<u8>>>, i: int) -> Result<
    (Seq<Seq<i64>>, Seq<u8>),
    LoadError,
>
    decreases i,
{
    if i <= 0 {
        Ok((Seq::empty(), Seq::empty()))
    } else {
        match spec_load_prefix(rows, i - 1) {
            Err(e) => Err(e),
            Ok((fs, ls)) => match spec_parse_row(rows[i - 1], (i - 1) as usize) {
                Err(e) => Err(e),
                Ok((f, l)) => Ok((fs.push(f), ls.push(l))),
            },
        }
    }
}

/// What a record set loads to.
pub open spec fn spec_load(rows: Seq<Seq<Seq<u8>>>) -> Result<
    (Seq<Seq<i64>>, Seq<u8>),
    LoadError,
> {
    spec_load_prefix(rows, rows.len() as int)
}

/// Once loading has failed it stays failed.
pub proof fn lemma_load_error_sticks(rows: Seq<Seq<Seq<u8>>>, i: int, n: int)
    requires
        0 < i <= n <= rows.len(),
        spec_load_prefix(rows, i) is Err,
    ensures
        spec_load_prefix(rows, n) == spec_load_prefix(rows, i),
    decreases n - i,
{
    if i < n {
        lemma_load_error_sticks(rows, i + 1, n);
    }
}

/// Loads parsed records into the feature matrix and label vector:
/// at least six fields per row, columns one to four the features,
/// column five the label; the first offending row aborts the load.
pub fn load_rows(rows: &Vec<Vec<Vec<u8>>>) -> (r: Result<(Vec<Vec<i64>>, Vec<u8>), LoadError>)
    ensures
        r matches Ok(p) ==> spec_load(view3(rows@)) == Ok::<_, LoadError>(
            (crate::trainer::view2(p.0@), p.1@),
        ),
        r matches Err(e) ==> spec_load(view3(rows@)) == Err::<(Seq<Seq<i64>>, Seq<u8>), _>(e),
        r matches Ok(p) ==> p.0@.len() == rows@.len() && p.1@.len() == rows@.len() && (forall|
            t: int,
        | 0 <= t < rows@.len() ==> #[trigger] p.0@[t]@.len() == 4),
{
    let ghost grows = view3(rows@);
    let n = rows.len();
    let mut fs: Vec<Vec<i64>> = Vec::new();
    let mut ls: Vec<u8> = Vec::new();
    proof {
        assert(crate::trainer::view2(fs@) =~= Seq::<Seq<i64>>::empty());
        assert(ls@ =~= Seq::<u8>::empty());
    }
    for i in 0..n
        invariant
            n == rows@.len(),
            grows == view3(rows@),
            fs@.len() == i,
            ls@.len() == i,
            forall|t: int| 0 <= t < i ==> #[trigger] fs@[t]@.len() == 4,
            spec_load_prefix(grows, i as int) == Ok::<_, LoadError>(
                (crate::trainer::view2(fs@), ls@),
            ),
    {
        let row = &rows[i];
        proof {
            assert(grows[i as int] == view2b(row@));
        }
        if row.len() < 6 {
            proof {
                lemma_load_error_sticks(grows, i as int + 1, n as int);
            }
            return Err(LoadError::MalformedRow { row: i });
        }
        let v1 = match parse_fixed(&row[1]) {
            Some(v) => v,
            None => {
                proof {
                    lemma_load_error_sticks(grows, i as int + 1, n as int);
                }
                return Err(LoadError::InvalidNumber { row: i, col: 1 });
            },
        };
        let v2 = match parse_fixed(&row[2]) {
            Some(v) => v,
            None => {
                proof {
                    lemma_load_error_sticks(grows, i as int + 1, n as int);
                }
                return Err(LoadError::InvalidNumber { row: i, col: 2 });
            },
        };
        let v3 = match parse_fixed(&row[3]) {
            Some(v) => v,
            None => {
                proof {
                    lemma_load_error_sticks(grows, i as int + 1, n as int);
                }
                return Err(LoadError::InvalidNumber { row: i, col: 3 });
            },
        };
        let v4 = match parse_fixed(&row[4]) {
            Some(v) => v,
            None => {
                proof {
                    lemma_load_error_sticks(grows, i as int + 1, n as int);
                }
                return Err(LoadError::InvalidNumber { row: i, col: 4 });
            },
        };
        let k = match label_of(&row[5]) {
            Some(k) => k,
            None => {
                proof {
                    lemma_load_error_sticks(grows, i as int + 1, n as int);
                }
                return Err(LoadError::UnknownLabel { row: i });
            },
        };
        let mut feats: Vec<i64> = Vec::new();
        feats.push(v1);
        feats.push(v2);
        feats.push(v3);
        feats.push(v4);
        let ghost ofs = fs@;
        proof {
            assert(feats@ =~= seq![v1, v2, v3, v4]);
            assert(spec_parse_row(grows[i as int], i) == Ok::<_, LoadError>((feats@, k)));
        }
        fs.push(feats);
        ls.push(k);
        proof {
            assert(crate::trainer::view2(fs@) =~= crate::trainer::view2(ofs).push(feats@));
        }
    }
    Ok((fs, ls))
}

/// Loads delimited text with a header row into the feature matrix and
/// the label vector, or the error that aborts the load.
pub fn load_data(data: &str) -> (r: Result<(Vec<Vec<i64>>, Vec<u8>), LoadError>)
    ensures
        csv_rows(data@) is None ==> r == Err::<(Vec<Vec<i64>>, Vec<u8>), _>(LoadError::CsvRead),
        csv_rows(data@) matches Some(rs) ==> (match r {
            Ok(p) => spec_load(rs) == Ok::<_, LoadError>((crate::trainer::view2(p.0@), p.1@)),
            Err(e) => spec_load(rs) == Err::<(Seq<Seq<i64>>, Seq<u8>), _>(e),
        }),
        r matches Ok(p) ==> p.0@.len() == p.1@.len() && (forall|t: int|
            0 <= t < p.0@.len() ==> #[trigger] p.0@[t]@.len() == 4),
{
    match read_csv_records(data) {
        None => Err(LoadError::CsvRead),
        Some(rows) => load_rows(&rows),
    }
}

} // verus!
