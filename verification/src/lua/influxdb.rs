use vstd::prelude::*;
use vstd::string::StringSliceAdditionalSpecFns;
use crate::util::{bytes_equal, copy_range, extend_from_range};

verus! {

/// The v2 precision "ns".
pub open spec fn p2_ns() -> Seq<u8> {
    seq![0x6Eu8, 0x73u8]
}

pub fn p2_ns_bytes() -> (v: Vec<u8>)
    ensures
        v@ == p2_ns(),
{
    let v = vec![0x6Eu8, 0x73u8];
    assert(v@ =~= p2_ns());
    v
}

/// The v2 precision "us".
pub open spec fn p2_us() -> Seq<u8> {
    seq![0x75u8, 0x73u8]
}

pub fn p2_us_bytes() -> (v: Vec<u8>)
    ensures
        v@ == p2_us(),
{
    let v = vec![0x75u8, 0x73u8];
    assert(v@ =~= p2_us());
    v
}

/// The v2 precision "ms".
pub open spec fn p2_ms() -> Seq<u8> {
    seq![0x6Du8, 0x73u8]
}

pub fn p2_ms_bytes() -> (v: Vec<u8>)
    ensures
        v@ == p2_ms(),
{
    let v = vec![0x6Du8, 0x73u8];
    assert(v@ =~= p2_ms());
    v
}

/// The v2 precision "s".
pub open spec fn p2_s() -> Seq<u8> {
    seq![0x73u8]
}

pub fn p2_s_bytes() -> (v: Vec<u8>)
    ensures
        v@ == p2_s(),
{
    let v = vec![0x73u8];
    assert(v@ =~= p2_s());
    v
}

/// The v2 precision "m".
pub open spec fn p2_m() -> Seq<u8> {
    seq![0x6Du8]
}

pub fn p2_m_bytes() -> (v: Vec<u8>)
    ensures
        v@ == p2_m(),
{
    let v = vec![0x6Du8];
    assert(v@ =~= p2_m());
    v
}

/// The v2 precision "h".
pub open spec fn p2_h() -> Seq<u8> {
    seq![0x68u8]
}

pub fn p2_h_bytes() -> (v: Vec<u8>)
    ensures
        v@ == p2_h(),
{
    let v = vec![0x68u8];
    assert(v@ =~= p2_h());
    v
}

/// The v3 precision "auto".
pub open spec fn p3_auto() -> Seq<u8> {
    seq![0x61u8, 0x75u8, 0x74u8, 0x6Fu8]
}

pub fn p3_auto_bytes() -> (v: Vec<u8>)
    ensures
        v@ == p3_auto(),
{
    let v = vec![0x61u8, 0x75u8, 0x74u8, 0x6Fu8];
    assert(v@ =~= p3_auto());
    v
}

/// The v3 precision "nanosecond".
pub open spec fn p3_nanosecond() -> Seq<u8> {
    seq![0x6Eu8, 0x61u8, 0x6Eu8, 0x6Fu8, 0x73u8, 0x65u8, 0x63u8, 0x6Fu8, 0x6Eu8, 0x64u8]
}

pub fn p3_nanosecond_bytes() -> (v: Vec<u8>)
    ensures
        v@ == p3_nanosecond(),
{
    let v = vec![0x6Eu8, 0x61u8, 0x6Eu8, 0x6Fu8, 0x73u8, 0x65u8, 0x63u8, 0x6Fu8, 0x6Eu8, 0x64u8];
    assert(v@ =~= p3_nanosecond());
    v
}

/// The v3 precision "microsecond".
pub open spec fn p3_microsecond() -> Seq<u8> {
    seq![0x6Du8, 0x69u8, 0x63u8, 0x72u8, 0x6Fu8, 0x73u8, 0x65u8, 0x63u8, 0x6Fu8, 0x6Eu8, 0x64u8]
}

pub fn p3_microsecond_bytes() -> (v: Vec<u8>)
    ensures
        v@ == p3_microsecond(),
{
    let v = vec![0x6Du8, 0x69u8, 0x63u8, 0x72u8, 0x6Fu8, 0x73u8, 0x65u8, 0x63u8, 0x6Fu8, 0x6Eu8, 0x64u8];
    assert(v@ =~= p3_microsecond());
    v
}

/// The v3 precision "millisecond".
pub open spec fn p3_millisecond() -> Seq<u8> {
    seq![0x6Du8, 0x69u8, 0x6Cu8, 0x6Cu8, 0x69u8, 0x73u8, 0x65u8, 0x63u8, 0x6Fu8, 0x6Eu8, 0x64u8]
}

pub fn p3_millisecond_bytes() -> (v: Vec<u8>)
    ensures
        v@ == p3_millisecond(),
{
    let v = vec![0x6Du8, 0x69u8, 0x6Cu8, 0x6Cu8, 0x69u8, 0x73u8, 0x65u8, 0x63u8, 0x6Fu8, 0x6Eu8, 0x64u8];
    assert(v@ =~= p3_millisecond());
    v
}

/// The v3 precision "second".
pub open spec fn p3_second() -> Seq<u8> {
    seq![0x73u8, 0x65u8, 0x63u8, 0x6Fu8, 0x6Eu8, 0x64u8]
}

pub fn p3_second_bytes() -> (v: Vec<u8>)
    ensures
        v@ == p3_second(),
{
    let v = vec![0x73u8, 0x65u8, 0x63u8, 0x6Fu8, 0x6Eu8, 0x64u8];
    assert(v@ =~= p3_second());
    v
}

/// The v2 write path.
pub open spec fn path_v2_write() -> Seq<u8> {
    seq![0x2Fu8, 0x61u8, 0x70u8, 0x69u8, 0x2Fu8, 0x76u8, 0x32u8, 0x2Fu8, 0x77u8, 0x72u8, 0x69u8, 0x74u8, 0x65u8]
}

pub fn path_v2_write_bytes() -> (v: Vec<u8>)
    ensures
        v@ == path_v2_write(),
{
    let v = vec![0x2Fu8, 0x61u8, 0x70u8, 0x69u8, 0x2Fu8, 0x76u8, 0x32u8, 0x2Fu8, 0x77u8, 0x72u8, 0x69u8, 0x74u8, 0x65u8];
    assert(v@ =~= path_v2_write());
    v
}

/// The v3 write path.
pub open spec fn path_v3_write() -> Seq<u8> {
    seq![0x2Fu8, 0x61u8, 0x70u8, 0x69u8, 0x2Fu8, 0x76u8, 0x33u8, 0x2Fu8, 0x77u8, 0x72u8, 0x69u8, 0x74u8, 0x65u8, 0x5Fu8, 0x6Cu8, 0x70u8]
}

pub fn path_v3_write_bytes() -> (v: Vec<u8>)
    ensures
        v@ == path_v3_write(),
{
    let v = vec![0x2Fu8, 0x61u8, 0x70u8, 0x69u8, 0x2Fu8, 0x76u8, 0x33u8, 0x2Fu8, 0x77u8, 0x72u8, 0x69u8, 0x74u8, 0x65u8, 0x5Fu8, 0x6Cu8, 0x70u8];
    assert(v@ =~= path_v3_write());
    v
}


/// A field of a write request that must not be empty.
#[derive(Debug, Clone, Copy, PartialEq, Eq, Structural)]
pub enum InfluxField {
    Url,
    Token,
    Org,
    Bucket,
    Db,
    LineData,
}

/// Why a write request is refused before it is sent.
#[derive(Debug, Clone, Copy, PartialEq, Eq, Structural)]
pub enum InfluxError {
    Empty(InfluxField),
    /// The precision is not one the endpoint takes.
    InvalidPrecision,
    /// A batch with no lines.
    NoLines,
    /// The line at this 1-based position is empty.
    EmptyLine(usize),
}

/// Whether `p` is a v2 precision.
pub open spec fn valid_v2_precision(p: Seq<u8>) -> bool {
    p == p2_ns() || p == p2_us() || p == p2_ms() || p == p2_s() || p == p2_m() || p == p2_h()
}

/// Whether `p` is a v3 precision.
pub open spec fn valid_v3_precision(p: Seq<u8>) -> bool {
    p == p3_auto() || p == p3_nanosecond() || p == p3_microsecond() || p == p3_millisecond() || p == p3_second()
}

/// The request fields as bytes.
pub open spec fn bytes_of(s: &str) -> Seq<u8> {
    s.spec_bytes()
}

/// The outcome of checking a v2 write: the first empty field among URL, token, org, bucket
/// and (for a single write) the line data, then the precision (default `ns`).
pub open spec fn v2_check(url: Seq<u8>, token: Seq<u8>, org: Seq<u8>, bucket: Seq<u8>, line_data: Option<Seq<u8>>,
    precision: Option<Seq<u8>>) -> Result<Seq<u8>, InfluxError> {
    if url.len() == 0 {
        Err(InfluxError::Empty(InfluxField::Url))
    } else if token.len() == 0 {
        Err(InfluxError::Empty(InfluxField::Token))
    } else if org.len() == 0 {
        Err(InfluxError::Empty(InfluxField::Org))
    } else if bucket.len() == 0 {
        Err(InfluxError::Empty(InfluxField::Bucket))
    } else if line_data matches Some(d) && d.len() == 0 {
        Err(InfluxError::Empty(InfluxField::LineData))
    } else {
        let p = match precision { Some(p) => p, None => p2_ns() };
        if valid_v2_precision(p) { Ok(p) } else { Err(InfluxError::InvalidPrecision) }
    }
}

/// The query settings of a v3 write.
pub struct V3Settings {
    pub precision: Vec<u8>,
    pub accept_partial: bool,
    pub no_sync: bool,
}

/// The outcome of checking a v3 write: the first empty field among URL, token, db and (for a
/// single write) the line data, then the precision (default `auto`); partial writes are
/// accepted and syncing is on unless asked otherwise.
pub open spec fn v3_check(url: Seq<u8>, token: Seq<u8>, db: Seq<u8>, line_data: Option<Seq<u8>>,
    precision: Option<Seq<u8>>) -> Result<Seq<u8>, InfluxError> {
    if url.len() == 0 {
        Err(InfluxError::Empty(InfluxField::Url))
    } else if token.len() == 0 {
        Err(InfluxError::Empty(InfluxField::Token))
    } else if db.len() == 0 {
        Err(InfluxError::Empty(InfluxField::Db))
    } else if line_data matches Some(d) && d.len() == 0 {
        Err(InfluxError::Empty(InfluxField::LineData))
    } else {
        let p = match precision { Some(p) => p, None => p3_auto() };
        if valid_v3_precision(p) { Ok(p) } else { Err(InfluxError::InvalidPrecision) }
    }
}

fn is_v2_precision(p: &[u8]) -> (r: bool)
    ensures
        r == valid_v2_precision(p@),
{
    bytes_equal(p, p2_ns_bytes().as_slice()) || bytes_equal(p, p2_us_bytes().as_slice())
        || bytes_equal(p, p2_ms_bytes().as_slice()) || bytes_equal(p, p2_s_bytes().as_slice())
        || bytes_equal(p, p2_m_bytes().as_slice()) || bytes_equal(p, p2_h_bytes().as_slice())
}

fn is_v3_precision(p: &[u8]) -> (r: bool)
    ensures
        r == valid_v3_precision(p@),
{
    bytes_equal(p, p3_auto_bytes().as_slice()) || bytes_equal(p, p3_nanosecond_bytes().as_slice())
        || bytes_equal(p, p3_microsecond_bytes().as_slice()) || bytes_equal(p, p3_millisecond_bytes().as_slice())
        || bytes_equal(p, p3_second_bytes().as_slice())
}

fn owned(b: &[u8]) -> (v: Vec<u8>)
    ensures
        v@ == b@,
{
    let v = copy_range(b, 0, b.len());
    assert(v@ =~= b@);
    v
}

/// Checks a v2 write request (`line_data` is `None` for a batch) and gives its precision.
pub fn check_v2_write(url: &str, token: &str, org: &str, bucket: &str, line_data: Option<&[u8]>,
    precision: Option<&str>) -> (r: Result<Vec<u8>, InfluxError>)
    ensures
        match v2_check(bytes_of(url), bytes_of(token), bytes_of(org), bytes_of(bucket),
            match line_data { Some(d) => Some(d@), None => None },
            match precision { Some(p) => Some(bytes_of(p)), None => None }) {
            Ok(p) => r matches Ok(v) && v@ == p,
            Err(e) => r == Err::<Vec<u8>, InfluxError>(e),
        },
{
    if url.as_bytes().len() == 0 {
        return Err(InfluxError::Empty(InfluxField::Url));
    }
    if token.as_bytes().len() == 0 {
        return Err(InfluxError::Empty(InfluxField::Token));
    }
    if org.as_bytes().len() == 0 {
        return Err(InfluxError::Empty(InfluxField::Org));
    }
    if bucket.as_bytes().len() == 0 {
        return Err(InfluxError::Empty(InfluxField::Bucket));
    }
    match line_data {
        Some(d) => if d.len() == 0 {
            return Err(InfluxError::Empty(InfluxField::LineData));
        },
        None => {},
    }
    let p = match precision {
        Some(p) => owned(p.as_bytes()),
        None => p2_ns_bytes(),
    };
    if is_v2_precision(p.as_slice()) { Ok(p) } else { Err(InfluxError::InvalidPrecision) }
}

/// Checks a v3 write request (`line_data` is `None` for a batch) and gives its settings.
pub fn check_v3_write(url: &str, token: &str, db: &str, line_data: Option<&[u8]>, precision: Option<&str>,
    accept_partial: Option<bool>, no_sync: Option<bool>) -> (r: Result<V3Settings, InfluxError>)
    ensures
        match v3_check(bytes_of(url), bytes_of(token), bytes_of(db),
            match line_data { Some(d) => Some(d@), None => None },
            match precision { Some(p) => Some(bytes_of(p)), None => None }) {
            Ok(p) => r matches Ok(s) && s.precision@ == p
                && s.accept_partial == (match accept_partial { Some(a) => a, None => true })
                && s.no_sync == (match no_sync { Some(n) => n, None => false }),
            Err(e) => r matches Err(e2) && e2 == e,
        },
{
    if url.as_bytes().len() == 0 {
        return Err(InfluxError::Empty(InfluxField::Url));
    }
    if token.as_bytes().len() == 0 {
        return Err(InfluxError::Empty(InfluxField::Token));
    }
    if db.as_bytes().len() == 0 {
        return Err(InfluxError::Empty(InfluxField::Db));
    }
    match line_data {
        Some(d) => if d.len() == 0 {
            return Err(InfluxError::Empty(InfluxField::LineData));
        },
        None => {},
    }
    let p = match precision {
        Some(p) => owned(p.as_bytes()),
        None => p3_auto_bytes(),
    };
    if !is_v3_precision(p.as_slice()) {
        return Err(InfluxError::InvalidPrecision);
    }
    let ap = match accept_partial { Some(a) => a, None => true };
    let ns = match no_sync { Some(n) => n, None => false };
    Ok(V3Settings { precision: p, accept_partial: ap, no_sync: ns })
}

/// Lines joined with line feeds.
pub open spec fn joined_lines(lines: Seq<Seq<u8>>) -> Seq<u8>
    decreases lines.len(),
{
    if lines.len() == 0 {
        seq![]
    } else if lines.len() == 1 {
        lines[0]
    } else {
        joined_lines(lines.drop_last()) + seq![0x0Au8] + lines.last()
    }
}

/// The body of a batch write: the lines joined with line feeds; no lines, or an empty one
/// (reported by its 1-based position), is refused.
pub fn join_lines(lines: &Vec<Vec<u8>>) -> (r: Result<Vec<u8>, InfluxError>)
    ensures
        lines@.len() == 0 ==> r == Err::<Vec<u8>, InfluxError>(InfluxError::NoLines),
        lines@.len() > 0 && (exists|i: int| 0 <= i < lines@.len() && (#[trigger] lines@[i])@.len() == 0) ==> {
            exists|i: int| 0 <= i < lines@.len() && (#[trigger] lines@[i])@.len() == 0
                && (forall|j: int| 0 <= j < i ==> (#[trigger] lines@[j])@.len() > 0)
                && r == Err::<Vec<u8>, InfluxError>(InfluxError::EmptyLine((i + 1) as usize))
        },
        lines@.len() > 0 && (forall|i: int| 0 <= i < lines@.len() ==> (#[trigger] lines@[i])@.len() > 0) ==> {
            r matches Ok(b) && b@ == joined_lines(lines@.map_values(|l: Vec<u8>| l@))
        },
{
    let n = lines.len();
    if n == 0 {
        return Err(InfluxError::NoLines);
    }
    let ghost views = lines@.map_values(|l: Vec<u8>| l@);
    let mut out: Vec<u8> = Vec::new();
    let mut i: usize = 0;
    while i < n
        invariant
            i <= n,
            n == lines@.len(),
            n > 0,
            views == lines@.map_values(|l: Vec<u8>| l@),
            forall|j: int| 0 <= j < i ==> (#[trigger] lines@[j])@.len() > 0,
            out@ == joined_lines(views.take(i as int)),
        decreases n - i,
    {
        let line = &lines[i];
        if line.len() == 0 {
            return Err(InfluxError::EmptyLine(i + 1));
        }
        let ghost before = out@;
        if i > 0 {
            out.push(0x0A);
        }
        extend_from_range(&mut out, line.as_slice(), 0, line.len());
        proof {
            let t = views.take(i + 1);
            assert(t.drop_last() =~= views.take(i as int));
            assert(t.last() == line@);
            assert(line@.subrange(0, line@.len() as int) =~= line@);
            if i == 0 {
                assert(views.take(0) =~= Seq::<Seq<u8>>::empty());
                assert(out@ =~= joined_lines(t));
            } else {
                assert(out@ =~= joined_lines(t));
            }
        }
        i = i + 1;
    }
    assert(views.take(n as int) =~= views);
    Ok(out)
}

/// The URL without its trailing slashes.
pub open spec fn trim_slashes(b: Seq<u8>) -> Seq<u8>
    decreases b.len(),
{
    if b.len() > 0 && b.last() == 0x2Fu8 { trim_slashes(b.drop_last()) } else { b }
}

fn trimmed_base(url: &[u8]) -> (v: Vec<u8>)
    ensures
        v@ == trim_slashes(url@),
{
    let mut end = url.len();
    assert(url@.take(end as int) =~= url@);
    while end > 0 && url[end - 1] == 0x2F
        invariant
            end <= url@.len(),
            trim_slashes(url@.take(end as int)) == trim_slashes(url@),
        decreases end,
    {
        assert(url@.take(end as int).drop_last() =~= url@.take(end - 1));
        end = end - 1;
    }
    assert(url@.take(url@.len() as int) =~= url@);
    let v = copy_range(url, 0, end);
    assert(v@ =~= url@.take(end as int));
    v
}

/// The v2 write endpoint under `base_url`.
pub fn v2_write_endpoint(base_url: &str) -> (v: Vec<u8>)
    ensures
        v@ == trim_slashes(bytes_of(base_url)) + path_v2_write(),
{
    let mut v = trimmed_base(base_url.as_bytes());
    let mut p = path_v2_write_bytes();
    v.append(&mut p);
    v
}

/// The v3 write endpoint under `base_url`.
pub fn v3_write_endpoint(base_url: &str) -> (v: Vec<u8>)
    ensures
        v@ == trim_slashes(bytes_of(base_url)) + path_v3_write(),
{
    let mut v = trimmed_base(base_url.as_bytes());
    let mut p = path_v3_write_bytes();
    v.append(&mut p);
    v
}


/// The InfluxDB v2 precisions, spelled out.
pub open spec fn v2_precision_names() -> Set<Seq<u8>> {
    set![
        seq!['n' as u8, 's' as u8],
        seq!['u' as u8, 's' as u8],
        seq!['m' as u8, 's' as u8],
        seq!['s' as u8],
        seq!['m' as u8],
        seq!['h' as u8],
    ]
}

/// With every field given and no empty line data, a v2 write is accepted exactly when its
/// precision is one of ns, us, ms, s, m, h, and the precision it goes out with is the one
/// given (nanoseconds when none is given); any other precision is refused as invalid.
pub proof fn lemma_v2_precisions(url: Seq<u8>, token: Seq<u8>, org: Seq<u8>, bucket: Seq<u8>,
    line_data: Option<Seq<u8>>, precision: Seq<u8>)
    requires
        url.len() > 0,
        token.len() > 0,
        org.len() > 0,
        bucket.len() > 0,
        line_data matches Some(d) ==> d.len() > 0,
    ensures
        v2_precision_names().contains(precision) ==> v2_check(url, token, org, bucket, line_data, Some(precision))
            == Ok::<Seq<u8>, InfluxError>(precision),
        !v2_precision_names().contains(precision) ==> v2_check(url, token, org, bucket, line_data, Some(precision))
            == Err::<Seq<u8>, InfluxError>(InfluxError::InvalidPrecision),
        v2_check(url, token, org, bucket, line_data, None) == Ok::<Seq<u8>, InfluxError>(seq!['n' as u8, 's' as u8]),
{
    assert(p2_ns() =~= seq!['n' as u8, 's' as u8]);
    assert(p2_us() =~= seq!['u' as u8, 's' as u8]);
    assert(p2_ms() =~= seq!['m' as u8, 's' as u8]);
    assert(p2_s() =~= seq!['s' as u8]);
    assert(p2_m() =~= seq!['m' as u8]);
    assert(p2_h() =~= seq!['h' as u8]);
}

} // verus!
