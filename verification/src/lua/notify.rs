use vstd::prelude::*;
use vstd::string::StringSliceAdditionalSpecFns;
use crate::lua::influxdb::{bytes_of, trim_slashes};
use crate::util::{bytes_equal, copy_range, extend_from_range};

verus! {

/// The TLS mode name "starttls".
pub open spec fn tls_starttls() -> Seq<u8> {
    seq![0x73u8, 0x74u8, 0x61u8, 0x72u8, 0x74u8, 0x74u8, 0x6Cu8, 0x73u8]
}

pub fn tls_starttls_bytes() -> (v: Vec<u8>)
    ensures
        v@ == tls_starttls(),
{
    let v = vec![0x73u8, 0x74u8, 0x61u8, 0x72u8, 0x74u8, 0x74u8, 0x6Cu8, 0x73u8];
    assert(v@ =~= tls_starttls());
    v
}

/// The TLS mode name "tls".
pub open spec fn tls_tls() -> Seq<u8> {
    seq![0x74u8, 0x6Cu8, 0x73u8]
}

pub fn tls_tls_bytes() -> (v: Vec<u8>)
    ensures
        v@ == tls_tls(),
{
    let v = vec![0x74u8, 0x6Cu8, 0x73u8];
    assert(v@ =~= tls_tls());
    v
}

/// The TLS mode name "none".
pub open spec fn tls_none() -> Seq<u8> {
    seq![0x6Eu8, 0x6Fu8, 0x6Eu8, 0x65u8]
}

pub fn tls_none_bytes() -> (v: Vec<u8>)
    ensures
        v@ == tls_none(),
{
    let v = vec![0x6Eu8, 0x6Fu8, 0x6Eu8, 0x65u8];
    assert(v@ =~= tls_none());
    v
}

/// The ntfy priority "max".
pub open spec fn prio_max() -> Seq<u8> {
    seq![0x6Du8, 0x61u8, 0x78u8]
}

pub fn prio_max_bytes() -> (v: Vec<u8>)
    ensures
        v@ == prio_max(),
{
    let v = vec![0x6Du8, 0x61u8, 0x78u8];
    assert(v@ =~= prio_max());
    v
}

/// The ntfy priority "urgent".
pub open spec fn prio_urgent() -> Seq<u8> {
    seq![0x75u8, 0x72u8, 0x67u8, 0x65u8, 0x6Eu8, 0x74u8]
}

pub fn prio_urgent_bytes() -> (v: Vec<u8>)
    ensures
        v@ == prio_urgent(),
{
    let v = vec![0x75u8, 0x72u8, 0x67u8, 0x65u8, 0x6Eu8, 0x74u8];
    assert(v@ =~= prio_urgent());
    v
}

/// The ntfy priority "high".
pub open spec fn prio_high() -> Seq<u8> {
    seq![0x68u8, 0x69u8, 0x67u8, 0x68u8]
}

pub fn prio_high_bytes() -> (v: Vec<u8>)
    ensures
        v@ == prio_high(),
{
    let v = vec![0x68u8, 0x69u8, 0x67u8, 0x68u8];
    assert(v@ =~= prio_high());
    v
}

/// The ntfy priority "default".
pub open spec fn prio_default() -> Seq<u8> {
    seq![0x64u8, 0x65u8, 0x66u8, 0x61u8, 0x75u8, 0x6Cu8, 0x74u8]
}

pub fn prio_default_bytes() -> (v: Vec<u8>)
    ensures
        v@ == prio_default(),
{
    let v = vec![0x64u8, 0x65u8, 0x66u8, 0x61u8, 0x75u8, 0x6Cu8, 0x74u8];
    assert(v@ =~= prio_default());
    v
}

/// The ntfy priority "low".
pub open spec fn prio_low() -> Seq<u8> {
    seq![0x6Cu8, 0x6Fu8, 0x77u8]
}

pub fn prio_low_bytes() -> (v: Vec<u8>)
    ensures
        v@ == prio_low(),
{
    let v = vec![0x6Cu8, 0x6Fu8, 0x77u8];
    assert(v@ =~= prio_low());
    v
}

/// The ntfy priority "min".
pub open spec fn prio_min() -> Seq<u8> {
    seq![0x6Du8, 0x69u8, 0x6Eu8]
}

pub fn prio_min_bytes() -> (v: Vec<u8>)
    ensures
        v@ == prio_min(),
{
    let v = vec![0x6Du8, 0x69u8, 0x6Eu8];
    assert(v@ =~= prio_min());
    v
}


/// How an SMTP connection is secured.
#[derive(Debug, Clone, Copy, PartialEq, Eq, Structural)]
pub enum TlsMode {
    /// Plain connection upgraded with STARTTLS.
    StartTls,
    /// TLS from the start.
    Tls,
    /// No encryption.
    Plain,
}

/// Why an SMTP request is refused before anything is sent.
#[derive(Debug, Clone, Copy, PartialEq, Eq, Structural)]
pub enum SmtpError {
    ServerEmpty,
    InvalidTls,
    NoBody,
    NoRecipients,
}

/// The TLS mode a name selects (`starttls` when none is given).
pub open spec fn tls_mode_of(name: Option<Seq<u8>>) -> Option<TlsMode> {
    match name {
        None => Some(TlsMode::StartTls),
        Some(n) => if n == tls_starttls() {
            Some(TlsMode::StartTls)
        } else if n == tls_tls() {
            Some(TlsMode::Tls)
        } else if n == tls_none() {
            Some(TlsMode::Plain)
        } else {
            None
        },
    }
}

/// The usual port of a mode: 465 for TLS, 25 for none, 587 for STARTTLS.
pub open spec fn spec_default_port(mode: TlsMode) -> u16 {
    match mode {
        TlsMode::Tls => 465,
        TlsMode::Plain => 25,
        TlsMode::StartTls => 587,
    }
}

pub fn default_port(mode: TlsMode) -> (p: u16)
    ensures
        p == spec_default_port(mode),
{
    match mode {
        TlsMode::Tls => 465,
        TlsMode::Plain => 25,
        TlsMode::StartTls => 587,
    }
}

/// The outcome of checking an SMTP request: a server, a known TLS mode, a text or HTML body and
/// at least one recipient, checked in that order; the port defaults by mode.
pub open spec fn smtp_check(server: Seq<u8>, tls: Option<Seq<u8>>, port: Option<u16>, has_text: bool,
    has_html: bool, recipients: nat) -> Result<(TlsMode, u16), SmtpError> {
    if server.len() == 0 {
        Err(SmtpError::ServerEmpty)
    } else if tls_mode_of(tls) is None {
        Err(SmtpError::InvalidTls)
    } else if !has_text && !has_html {
        Err(SmtpError::NoBody)
    } else if recipients == 0 {
        Err(SmtpError::NoRecipients)
    } else {
        let mode = tls_mode_of(tls).unwrap();
        Ok((mode, match port { Some(p) => p, None => spec_default_port(mode) }))
    }
}

/// Checks an SMTP request and settles its TLS mode and port.
pub fn check_smtp(server: &str, tls: Option<&str>, port: Option<u16>, has_text: bool, has_html: bool,
    recipients: usize) -> (r: Result<(TlsMode, u16), SmtpError>)
    ensures
        r == smtp_check(bytes_of(server), match tls { Some(t) => Some(bytes_of(t)), None => None }, port,
            has_text, has_html, recipients as nat),
{
    if server.as_bytes().len() == 0 {
        return Err(SmtpError::ServerEmpty);
    }
    let mode = match tls {
        None => TlsMode::StartTls,
        Some(t) => {
            let b = t.as_bytes();
            if bytes_equal(b, tls_starttls_bytes().as_slice()) {
                TlsMode::StartTls
            } else if bytes_equal(b, tls_tls_bytes().as_slice()) {
                TlsMode::Tls
            } else if bytes_equal(b, tls_none_bytes().as_slice()) {
                TlsMode::Plain
            } else {
                return Err(SmtpError::InvalidTls);
            }
        },
    };
    if !has_text && !has_html {
        return Err(SmtpError::NoBody);
    }
    if recipients == 0 {
        return Err(SmtpError::NoRecipients);
    }
    let p = match port {
        Some(p) => p,
        None => default_port(mode),
    };
    Ok((mode, p))
}

/// Why an ntfy request is refused before it is sent.
#[derive(Debug, Clone, Copy, PartialEq, Eq, Structural)]
pub enum NtfyError {
    TopicEmpty,
    ServerEmpty,
    InvalidPriority,
}

/// Whether `p` is an ntfy priority name.
pub open spec fn valid_priority(p: Seq<u8>) -> bool {
    p == prio_max() || p == prio_urgent() || p == prio_high() || p == prio_default() || p == prio_low()
        || p == prio_min()
}

/// The topic URL: the server without trailing slashes, a slash, the topic.
pub open spec fn topic_url(server: Seq<u8>, topic: Seq<u8>) -> Seq<u8> {
    trim_slashes(server) + seq![0x2Fu8] + topic
}

/// The outcome of checking an ntfy request: a topic, a server, a known priority if one is
/// given, in that order; on success the topic URL.
pub open spec fn ntfy_check(topic: Seq<u8>, server: Seq<u8>, priority: Option<Seq<u8>>) -> Result<Seq<u8>, NtfyError> {
    if topic.len() == 0 {
        Err(NtfyError::TopicEmpty)
    } else if server.len() == 0 {
        Err(NtfyError::ServerEmpty)
    } else if priority matches Some(p) && !valid_priority(p) {
        Err(NtfyError::InvalidPriority)
    } else {
        Ok(topic_url(server, topic))
    }
}

/// Checks an ntfy request and builds its topic URL.
pub fn check_ntfy(topic: &str, server: &str, priority: Option<&str>) -> (r: Result<Vec<u8>, NtfyError>)
    ensures
        match ntfy_check(bytes_of(topic), bytes_of(server), match priority { Some(p) => Some(bytes_of(p)), None => None }) {
            Ok(u) => r matches Ok(v) && v@ == u,
            Err(e) => r matches Err(e2) && e2 == e,
        },
{
    let t = topic.as_bytes();
    let s = server.as_bytes();
    if t.len() == 0 {
        return Err(NtfyError::TopicEmpty);
    }
    if s.len() == 0 {
        return Err(NtfyError::ServerEmpty);
    }
    match priority {
        Some(p) => {
            let b = p.as_bytes();
            let ok = bytes_equal(b, prio_max_bytes().as_slice()) || bytes_equal(b, prio_urgent_bytes().as_slice())
                || bytes_equal(b, prio_high_bytes().as_slice()) || bytes_equal(b, prio_default_bytes().as_slice())
                || bytes_equal(b, prio_low_bytes().as_slice()) || bytes_equal(b, prio_min_bytes().as_slice());
            if !ok {
                return Err(NtfyError::InvalidPriority);
            }
        },
        None => {},
    }
    let mut end = s.len();
    assert(s@.take(end as int) =~= s@);
    while end > 0 && s[end - 1] == 0x2F
        invariant
            end <= s@.len(),
            trim_slashes(s@.take(end as int)) == trim_slashes(s@),
        decreases end,
    {
        assert(s@.take(end as int).drop_last() =~= s@.take(end - 1));
        end = end - 1;
    }
    let mut url = copy_range(s, 0, end);
    assert(url@ =~= s@.take(end as int));
    url.push(0x2F);
    extend_from_range(&mut url, t, 0, t.len());
    assert(t@.subrange(0, t@.len() as int) =~= t@);
    Ok(url)
}

/// Tags joined with commas; none when there are no tags.
pub open spec fn joined_tags(tags: Seq<Seq<u8>>) -> Seq<u8>
    decreases tags.len(),
{
    if tags.len() == 0 {
        seq![]
    } else if tags.len() == 1 {
        tags[0]
    } else {
        joined_tags(tags.drop_last()) + seq![0x2Cu8] + tags.last()
    }
}

/// The tag header value of a tag list.
pub fn join_tags(tags: &Vec<Vec<u8>>) -> (r: Option<Vec<u8>>)
    ensures
        tags@.len() == 0 ==> r is None,
        tags@.len() > 0 ==> (r matches Some(v) && v@ == joined_tags(tags@.map_values(|t: Vec<u8>| t@))),
{
    let n = tags.len();
    if n == 0 {
        return None;
    }
    let ghost views = tags@.map_values(|t: Vec<u8>| t@);
    let mut out: Vec<u8> = Vec::new();
    let mut i: usize = 0;
    assert(views.take(0) =~= Seq::<Seq<u8>>::empty());
    while i < n
        invariant
            i <= n,
            n == tags@.len(),
            views == tags@.map_values(|t: Vec<u8>| t@),
            out@ == joined_tags(views.take(i as int)),
        decreases n - i,
    {
        let t = &tags[i];
        if i > 0 {
            out.push(0x2C);
        }
        extend_from_range(&mut out, t.as_slice(), 0, t.len());
        proof {
            let w = views.take(i + 1);
            assert(w.drop_last() =~= views.take(i as int));
            assert(w.last() == t@);
            assert(t@.subrange(0, t@.len() as int) =~= t@);
            assert(out@ =~= joined_tags(w));
        }
        i = i + 1;
    }
    assert(views.take(n as int) =~= views);
    Some(out)
}

} // verus!
