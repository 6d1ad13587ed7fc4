use vstd::prelude::*;
use vstd::string::StringSliceAdditionalSpecFns;
use crate::text::{ascii_chars, ascii_string, decimal, is_ascii_bytes, lemma_decimal_ascii, push_decimal};
use crate::text::str_chars;
use crate::util::copy_range;

verus! {

/// Refusal of an empty webhook URL.
pub open spec fn msg_url_empty() -> Seq<u8> {
    seq![0x77u8, 0x65u8, 0x62u8, 0x68u8, 0x6Fu8, 0x6Fu8, 0x6Bu8, 0x5Fu8, 0x75u8, 0x72u8, 0x6Cu8, 0x20u8, 0x63u8, 0x61u8, 0x6Eu8, 0x6Eu8, 0x6Fu8, 0x74u8, 0x20u8, 0x62u8, 0x65u8, 0x20u8, 0x65u8, 0x6Du8, 0x70u8, 0x74u8, 0x79u8]
}

pub fn msg_url_empty_bytes() -> (v: Vec<u8>)
    ensures
        v@ == msg_url_empty(),
{
    let v = vec![0x77u8, 0x65u8, 0x62u8, 0x68u8, 0x6Fu8, 0x6Fu8, 0x6Bu8, 0x5Fu8, 0x75u8, 0x72u8, 0x6Cu8, 0x20u8, 0x63u8, 0x61u8, 0x6Eu8, 0x6Eu8, 0x6Fu8, 0x74u8, 0x20u8, 0x62u8, 0x65u8, 0x20u8, 0x65u8, 0x6Du8, 0x70u8, 0x74u8, 0x79u8];
    assert(v@ =~= msg_url_empty());
    v
}

/// Refusal of a URL that is not a Discord webhook.
pub open spec fn msg_url_invalid() -> Seq<u8> {
    seq![0x69u8, 0x6Eu8, 0x76u8, 0x61u8, 0x6Cu8, 0x69u8, 0x64u8, 0x20u8, 0x44u8, 0x69u8, 0x73u8, 0x63u8, 0x6Fu8, 0x72u8, 0x64u8, 0x20u8, 0x77u8, 0x65u8, 0x62u8, 0x68u8, 0x6Fu8, 0x6Fu8, 0x6Bu8, 0x20u8, 0x55u8, 0x52u8, 0x4Cu8]
}

pub fn msg_url_invalid_bytes() -> (v: Vec<u8>)
    ensures
        v@ == msg_url_invalid(),
{
    let v = vec![0x69u8, 0x6Eu8, 0x76u8, 0x61u8, 0x6Cu8, 0x69u8, 0x64u8, 0x20u8, 0x44u8, 0x69u8, 0x73u8, 0x63u8, 0x6Fu8, 0x72u8, 0x64u8, 0x20u8, 0x77u8, 0x65u8, 0x62u8, 0x68u8, 0x6Fu8, 0x6Fu8, 0x6Bu8, 0x20u8, 0x55u8, 0x52u8, 0x4Cu8];
    assert(v@ =~= msg_url_invalid());
    v
}

/// Refusal of empty content.
pub open spec fn msg_content_empty() -> Seq<u8> {
    seq![0x63u8, 0x6Fu8, 0x6Eu8, 0x74u8, 0x65u8, 0x6Eu8, 0x74u8, 0x20u8, 0x63u8, 0x61u8, 0x6Eu8, 0x6Eu8, 0x6Fu8, 0x74u8, 0x20u8, 0x62u8, 0x65u8, 0x20u8, 0x65u8, 0x6Du8, 0x70u8, 0x74u8, 0x79u8]
}

pub fn msg_content_empty_bytes() -> (v: Vec<u8>)
    ensures
        v@ == msg_content_empty(),
{
    let v = vec![0x63u8, 0x6Fu8, 0x6Eu8, 0x74u8, 0x65u8, 0x6Eu8, 0x74u8, 0x20u8, 0x63u8, 0x61u8, 0x6Eu8, 0x6Eu8, 0x6Fu8, 0x74u8, 0x20u8, 0x62u8, 0x65u8, 0x20u8, 0x65u8, 0x6Du8, 0x70u8, 0x74u8, 0x79u8];
    assert(v@ =~= msg_content_empty());
    v
}

/// Start of the refusal of long content.
pub open spec fn msg_content_long() -> Seq<u8> {
    seq![0x63u8, 0x6Fu8, 0x6Eu8, 0x74u8, 0x65u8, 0x6Eu8, 0x74u8, 0x20u8, 0x65u8, 0x78u8, 0x63u8, 0x65u8, 0x65u8, 0x64u8, 0x73u8, 0x20u8, 0x32u8, 0x30u8, 0x30u8, 0x30u8, 0x20u8, 0x63u8, 0x68u8, 0x61u8, 0x72u8, 0x61u8, 0x63u8, 0x74u8, 0x65u8, 0x72u8, 0x73u8, 0x20u8, 0x28u8, 0x67u8, 0x6Fu8, 0x74u8, 0x20u8]
}

pub fn msg_content_long_bytes() -> (v: Vec<u8>)
    ensures
        v@ == msg_content_long(),
{
    let v = vec![0x63u8, 0x6Fu8, 0x6Eu8, 0x74u8, 0x65u8, 0x6Eu8, 0x74u8, 0x20u8, 0x65u8, 0x78u8, 0x63u8, 0x65u8, 0x65u8, 0x64u8, 0x73u8, 0x20u8, 0x32u8, 0x30u8, 0x30u8, 0x30u8, 0x20u8, 0x63u8, 0x68u8, 0x61u8, 0x72u8, 0x61u8, 0x63u8, 0x74u8, 0x65u8, 0x72u8, 0x73u8, 0x20u8, 0x28u8, 0x67u8, 0x6Fu8, 0x74u8, 0x20u8];
    assert(v@ =~= msg_content_long());
    v
}

/// Start of the refusal of a long username.
pub open spec fn msg_username_long() -> Seq<u8> {
    seq![0x75u8, 0x73u8, 0x65u8, 0x72u8, 0x6Eu8, 0x61u8, 0x6Du8, 0x65u8, 0x20u8, 0x65u8, 0x78u8, 0x63u8, 0x65u8, 0x65u8, 0x64u8, 0x73u8, 0x20u8, 0x38u8, 0x30u8, 0x20u8, 0x63u8, 0x68u8, 0x61u8, 0x72u8, 0x61u8, 0x63u8, 0x74u8, 0x65u8, 0x72u8, 0x73u8, 0x20u8, 0x28u8, 0x67u8, 0x6Fu8, 0x74u8, 0x20u8]
}

pub fn msg_username_long_bytes() -> (v: Vec<u8>)
    ensures
        v@ == msg_username_long(),
{
    let v = vec![0x75u8, 0x73u8, 0x65u8, 0x72u8, 0x6Eu8, 0x61u8, 0x6Du8, 0x65u8, 0x20u8, 0x65u8, 0x78u8, 0x63u8, 0x65u8, 0x65u8, 0x64u8, 0x73u8, 0x20u8, 0x38u8, 0x30u8, 0x20u8, 0x63u8, 0x68u8, 0x61u8, 0x72u8, 0x61u8, 0x63u8, 0x74u8, 0x65u8, 0x72u8, 0x73u8, 0x20u8, 0x28u8, 0x67u8, 0x6Fu8, 0x74u8, 0x20u8];
    assert(v@ =~= msg_username_long());
    v
}

/// The Discord webhook URL prefix.
pub open spec fn prefix_discord() -> Seq<u8> {
    seq![0x68u8, 0x74u8, 0x74u8, 0x70u8, 0x73u8, 0x3Au8, 0x2Fu8, 0x2Fu8, 0x64u8, 0x69u8, 0x73u8, 0x63u8, 0x6Fu8, 0x72u8, 0x64u8, 0x2Eu8, 0x63u8, 0x6Fu8, 0x6Du8, 0x2Fu8, 0x61u8, 0x70u8, 0x69u8, 0x2Fu8, 0x77u8, 0x65u8, 0x62u8, 0x68u8, 0x6Fu8, 0x6Fu8, 0x6Bu8, 0x73u8, 0x2Fu8]
}

pub fn prefix_discord_bytes() -> (v: Vec<u8>)
    ensures
        v@ == prefix_discord(),
{
    let v = vec![0x68u8, 0x74u8, 0x74u8, 0x70u8, 0x73u8, 0x3Au8, 0x2Fu8, 0x2Fu8, 0x64u8, 0x69u8, 0x73u8, 0x63u8, 0x6Fu8, 0x72u8, 0x64u8, 0x2Eu8, 0x63u8, 0x6Fu8, 0x6Du8, 0x2Fu8, 0x61u8, 0x70u8, 0x69u8, 0x2Fu8, 0x77u8, 0x65u8, 0x62u8, 0x68u8, 0x6Fu8, 0x6Fu8, 0x6Bu8, 0x73u8, 0x2Fu8];
    assert(v@ =~= prefix_discord());
    v
}

/// The legacy Discord webhook URL prefix.
pub open spec fn prefix_discordapp() -> Seq<u8> {
    seq![0x68u8, 0x74u8, 0x74u8, 0x70u8, 0x73u8, 0x3Au8, 0x2Fu8, 0x2Fu8, 0x64u8, 0x69u8, 0x73u8, 0x63u8, 0x6Fu8, 0x72u8, 0x64u8, 0x61u8, 0x70u8, 0x70u8, 0x2Eu8, 0x63u8, 0x6Fu8, 0x6Du8, 0x2Fu8, 0x61u8, 0x70u8, 0x69u8, 0x2Fu8, 0x77u8, 0x65u8, 0x62u8, 0x68u8, 0x6Fu8, 0x6Fu8, 0x6Bu8, 0x73u8, 0x2Fu8]
}

pub fn prefix_discordapp_bytes() -> (v: Vec<u8>)
    ensures
        v@ == prefix_discordapp(),
{
    let v = vec![0x68u8, 0x74u8, 0x74u8, 0x70u8, 0x73u8, 0x3Au8, 0x2Fu8, 0x2Fu8, 0x64u8, 0x69u8, 0x73u8, 0x63u8, 0x6Fu8, 0x72u8, 0x64u8, 0x61u8, 0x70u8, 0x70u8, 0x2Eu8, 0x63u8, 0x6Fu8, 0x6Du8, 0x2Fu8, 0x61u8, 0x70u8, 0x69u8, 0x2Fu8, 0x77u8, 0x65u8, 0x62u8, 0x68u8, 0x6Fu8, 0x6Fu8, 0x6Bu8, 0x73u8, 0x2Fu8];
    assert(v@ =~= prefix_discordapp());
    v
}

/// The prefix of a refused send.
pub open spec fn msg_send_prefix() -> Seq<u8> {
    seq![0x64u8, 0x69u8, 0x73u8, 0x63u8, 0x6Fu8, 0x72u8, 0x64u8, 0x5Fu8, 0x73u8, 0x65u8, 0x6Eu8, 0x64u8, 0x3Au8, 0x20u8]
}

pub fn msg_send_prefix_bytes() -> (v: Vec<u8>)
    ensures
        v@ == msg_send_prefix(),
{
    let v = vec![0x64u8, 0x69u8, 0x73u8, 0x63u8, 0x6Fu8, 0x72u8, 0x64u8, 0x5Fu8, 0x73u8, 0x65u8, 0x6Eu8, 0x64u8, 0x3Au8, 0x20u8];
    assert(v@ =~= msg_send_prefix());
    v
}

/// Whether `b` starts with `prefix`.
pub open spec fn has_prefix(b: Seq<u8>, prefix: Seq<u8>) -> bool {
    b.len() >= prefix.len() && b.take(prefix.len() as int) == prefix
}

fn starts_with_bytes(b: &[u8], prefix: &[u8]) -> (r: bool)
    ensures
        r == has_prefix(b@, prefix@),
{
    if b.len() < prefix.len() {
        return false;
    }
    let head = copy_range(b, 0, prefix.len());
    assert(head@ =~= b@.take(prefix@.len() as int));
    crate::util::bytes_equal(head.as_slice(), prefix)
}

/// The longest content a webhook message may have, in characters.
pub const MAX_CONTENT_LEN: usize = 2000;

/// The longest username override, in characters.
pub const MAX_USERNAME_LEN: usize = 80;

/// Why a webhook URL is refused, if it is.
pub open spec fn webhook_url_problem(url: Seq<u8>) -> Option<Seq<u8>> {
    if url.len() == 0 {
        Some(msg_url_empty())
    } else if !has_prefix(url, prefix_discord()) && !has_prefix(url, prefix_discordapp()) {
        Some(msg_url_invalid())
    } else {
        None
    }
}

/// Why content is refused, if it is: it is empty, or longer than 2000 characters.
pub open spec fn content_problem(content: Seq<char>) -> Option<Seq<u8>> {
    if content.len() == 0 {
        Some(msg_content_empty())
    } else if content.len() > 2000 {
        Some(msg_content_long() + decimal(content.len()) + seq![0x29u8])
    } else {
        None
    }
}

/// Why a username override is refused, if it is: it is longer than 80 characters.
pub open spec fn username_problem(username: Option<Seq<char>>) -> Option<Seq<u8>> {
    match username {
        Some(u) => if u.len() > 80 { Some(msg_username_long() + decimal(u.len()) + seq![0x29u8]) } else { None },
        None => None,
    }
}

/// Text `prefix`, a number and a closing parenthesis.
fn count_message(prefix: Vec<u8>, n: usize) -> (s: String)
    requires
        is_ascii_bytes(prefix@),
    ensures
        s@ == ascii_chars(prefix@ + decimal(n as nat) + seq![0x29u8]),
{
    let mut b = prefix;
    push_decimal(&mut b, n as u64);
    b.push(0x29);
    proof {
        lemma_decimal_ascii(n as nat);
        let x = b@;
        assert forall|i: int| 0 <= i < x.len() implies x[i] < 0x80 by {
            let p = prefix@.len() as int;
            let d = decimal(n as nat);
            if i >= p && i < p + d.len() {
                assert(x[i] == d[i - p]);
            }
        }
    }
    ascii_string(b)
}

proof fn lemma_lits_ascii()
    ensures
        is_ascii_bytes(msg_url_empty()),
        is_ascii_bytes(msg_url_invalid()),
        is_ascii_bytes(msg_content_empty()),
        is_ascii_bytes(msg_content_long()),
        is_ascii_bytes(msg_username_long()),
        is_ascii_bytes(msg_send_prefix()),
{
}

/// Checks a Discord webhook URL: not empty, and under one of Discord's webhook paths.
pub fn validate_webhook_url(webhook_url: &str) -> (r: Option<String>)
    ensures
        match webhook_url_problem(webhook_url.spec_bytes()) {
            Some(p) => r matches Some(s) && s@ == ascii_chars(p),
            None => r is None,
        },
{
    proof { lemma_lits_ascii(); }
    let b = webhook_url.as_bytes();
    if b.len() == 0 {
        return Some(ascii_string(msg_url_empty_bytes()));
    }
    if !starts_with_bytes(b, prefix_discord_bytes().as_slice()) && !starts_with_bytes(b, prefix_discordapp_bytes().as_slice()) {
        return Some(ascii_string(msg_url_invalid_bytes()));
    }
    None
}

/// Checks message content: not empty, at most 2000 characters.
pub fn validate_content(content: &str) -> (r: Option<String>)
    ensures
        match content_problem(content@) {
            Some(p) => r matches Some(s) && s@ == ascii_chars(p),
            None => r is None,
        },
{
    proof { lemma_lits_ascii(); }
    let n = str_chars(content).len();
    if n == 0 {
        return Some(ascii_string(msg_content_empty_bytes()));
    }
    if n > MAX_CONTENT_LEN {
        return Some(count_message(msg_content_long_bytes(), n));
    }
    None
}

/// Checks a username override: at most 80 characters.
pub fn validate_username(username: &Option<String>) -> (r: Option<String>)
    ensures
        match username_problem(match username { Some(u) => Some(u@), None => None }) {
            Some(p) => r matches Some(s) && s@ == ascii_chars(p),
            None => r is None,
        },
{
    proof { lemma_lits_ascii(); }
    match username {
        Some(u) => {
            let n = str_chars(u.as_str()).len();
            if n > MAX_USERNAME_LEN {
                Some(count_message(msg_username_long_bytes(), n))
            } else {
                None
            }
        },
        None => None,
    }
}

/// The first problem with a webhook request, in the order URL, content, username.
pub open spec fn webhook_problem(url: Seq<u8>, content: Seq<char>, username: Option<Seq<char>>) -> Option<Seq<u8>> {
    if webhook_url_problem(url) is Some {
        webhook_url_problem(url)
    } else if content_problem(content) is Some {
        content_problem(content)
    } else {
        username_problem(username)
    }
}

/// Checks a webhook request before it is sent; a refusal reads `discord_send: <problem>`.
pub fn check_webhook_request(webhook_url: &str, content: &str, username: &Option<String>) -> (r: Option<String>)
    ensures
        match webhook_problem(webhook_url.spec_bytes(), content@,
            match username { Some(u) => Some(u@), None => None }) {
            Some(p) => r matches Some(s) && s@ == ascii_chars(msg_send_prefix()) + ascii_chars(p),
            None => r is None,
        },
{
    let problem = match validate_webhook_url(webhook_url) {
        Some(e) => Some(e),
        None => match validate_content(content) {
            Some(e) => Some(e),
            None => validate_username(username),
        },
    };
    match problem {
        Some(e) => {
            proof { lemma_lits_ascii(); }
            let head = ascii_string(msg_send_prefix_bytes());
            let mut both = head;
            both.append(e.as_str());
            Some(both)
        },
        None => None,
    }
}

} // verus!
