//! Endpoint addresses: which hosts are local, and the base URL of an API.

use vstd::prelude::*;

use crate::text;
use crate::text::laws;

verus! {

// ---------------------------------------------------------------------------
// IP addresses
// ---------------------------------------------------------------------------

/// A decimal number up to 255 without leading zeros.
pub open spec fn octet(s: Seq<char>) -> Option<u8> {
    if 1 <= s.len() <= 3 && text::all_digits(s) && (s.len() > 1 ==> s[0] != '0') && text::number(s)
        <= 255 {
        Some(text::number(s) as u8)
    } else {
        None
    }
}

/// The octets of an IPv4 address.
pub open spec fn ipv4(s: Seq<char>) -> Option<(u8, u8, u8, u8)> {
    let parts = text::split_on(s, '.');
    if parts.len() != 4 {
        None
    } else {
        match (octet(parts[0]), octet(parts[1]), octet(parts[2]), octet(parts[3])) {
            (Some(a), Some(b), Some(c), Some(d)) => Some((a, b, c, d)),
            _ => None,
        }
    }
}

/// The value of a hexadecimal digit.
pub open spec fn hex_digit(c: char) -> Option<nat> {
    if '0' <= c && c <= '9' {
        Some((c as int - '0' as int) as nat)
    } else if 'a' <= c && c <= 'f' {
        Some((c as int - 'a' as int + 10) as nat)
    } else if 'A' <= c && c <= 'F' {
        Some((c as int - 'A' as int + 10) as nat)
    } else {
        None
    }
}

/// The number that hexadecimal digits write.
pub open spec fn hex_number(s: Seq<char>) -> Option<nat>
    decreases s.len(),
{
    if s.len() == 0 {
        Some(0)
    } else {
        match (hex_number(s.drop_last()), hex_digit(s.last())) {
            (Some(n), Some(d)) => Some(16 * n + d),
            _ => None,
        }
    }
}

/// One to four hexadecimal digits.
pub open spec fn hex_group(s: Seq<char>) -> Option<u16> {
    if 1 <= s.len() <= 4 {
        match hex_number(s) {
            Some(n) => Some(n as u16),
            None => None,
        }
    } else {
        None
    }
}

/// The values of a list of hexadecimal groups.
pub open spec fn hex_groups(parts: Seq<Seq<char>>) -> Option<Seq<u16>>
    decreases parts.len(),
{
    if parts.len() == 0 {
        Some(seq![])
    } else {
        match (hex_groups(parts.drop_last()), hex_group(parts.last())) {
            (Some(groups), Some(group)) => Some(groups.push(group)),
            _ => None,
        }
    }
}

/// The pieces between colons; an empty text has none.
pub open spec fn colon_parts(s: Seq<char>) -> Seq<Seq<char>> {
    if s.len() == 0 {
        seq![]
    } else {
        text::split_on(s, ':')
    }
}

/// The groups of a run of an IPv6 address. Its last piece may be an IPv4
/// address where `v4_last` allows it.
pub open spec fn group_run(s: Seq<char>, v4_last: bool) -> Option<Seq<u16>> {
    let parts = colon_parts(s);
    if v4_last && parts.len() > 0 && parts.last().contains('.') {
        match (hex_groups(parts.drop_last()), ipv4(parts.last())) {
            (Some(groups), Some((a, b, c, d))) => Some(
                groups.push((a as int * 256 + b) as u16).push((c as int * 256 + d) as u16),
            ),
            _ => None,
        }
    } else {
        hex_groups(parts)
    }
}

/// The eight segments of an IPv6 address.
pub open spec fn ipv6(s: Seq<char>) -> Option<Seq<u16>> {
    match text::split_first(s, "::"@) {
        None => match group_run(s, true) {
            Some(groups) if groups.len() == 8 => Some(groups),
            _ => None,
        },
        Some((head, tail)) => match (group_run(head, false), group_run(tail, true)) {
            (Some(h), Some(t)) if h.len() + t.len() <= 7 => Some(
                h + Seq::new((8 - h.len() - t.len()) as nat, |i: int| 0u16) + t,
            ),
            _ => None,
        },
    }
}

/// Whether an IPv4 address is private, of this machine, or link-local.
pub open spec fn local_ipv4(a: u8, b: u8) -> bool {
    ||| a == 10
    ||| a == 172 && 16 <= b <= 31
    ||| a == 192 && b == 168
    ||| a == 127
    ||| a == 169 && b == 254
}

/// Whether an IPv6 address is of this machine, unique local, or link-local.
pub open spec fn local_ipv6(segments: Seq<u16>) -> bool {
    ||| segments == seq![0u16, 0, 0, 0, 0, 0, 0, 1]
    ||| 0xfc00 <= segments[0] <= 0xfdff
    ||| 0xfe80 <= segments[0] <= 0xfebf
}

/// Whether a host is on this machine or its network.
pub open spec fn self_hosted(host: Seq<char>) -> bool {
    if host == "localhost"@ || text::finishes_with(host, ".local"@) {
        true
    } else {
        match ipv4(host) {
            Some((a, b, _, _)) => local_ipv4(a, b),
            None => match ipv6(host) {
                Some(segments) => local_ipv6(segments),
                None => false,
            },
        }
    }
}

fn parse_octet(s: &str) -> (r: Option<u8>)
    ensures
        r == octet(s@),
{
    let x = text::chars_of(s);
    if x.len() == 0 || x.len() > 3 {
        return None;
    }
    let mut i: usize = 0;
    while i < x.len()
        invariant
            x@ == s@,
            i <= x@.len(),
            forall|j: int| 0 <= j < i ==> text::is_digit(#[trigger] x@[j]),
        decreases x@.len() - i,
    {
        if x[i] < '0' || x[i] > '9' {
            assert(!text::is_digit(s@[i as int]));
            return None;
        }
        i += 1;
    }
    assert(text::is_digit(x@[0]));
    if x.len() > 1 && x[0] == '0' {
        return None;
    }
    match text::parse_u64(s) {
        Some(n) if n <= 255 => Some(n as u8),
        _ => None,
    }
}

fn parse_ipv4(s: &str) -> (r: Option<(u8, u8, u8, u8)>)
    ensures
        r == ipv4(s@),
{
    let parts = text::split(s, '.');
    assert(text::texts(parts@).len() == parts@.len());
    if parts.len() != 4 {
        return None;
    }
    match (
        parse_octet(parts[0].as_str()),
        parse_octet(parts[1].as_str()),
        parse_octet(parts[2].as_str()),
        parse_octet(parts[3].as_str()),
    ) {
        (Some(a), Some(b), Some(c), Some(d)) => Some((a, b, c, d)),
        _ => None,
    }
}

fn hex_digit_value(c: char) -> (r: Option<u16>)
    ensures
        match r {
            Some(d) => hex_digit(c) == Some(d as nat) && d < 16,
            None => hex_digit(c) is None,
        },
{
    if '0' <= c && c <= '9' {
        Some((c as u32 - '0' as u32) as u16)
    } else if 'a' <= c && c <= 'f' {
        Some((c as u32 - 'a' as u32 + 10) as u16)
    } else if 'A' <= c && c <= 'F' {
        Some((c as u32 - 'A' as u32 + 10) as u16)
    } else {
        None
    }
}

proof fn lemma_hex_number_stuck(s: Seq<char>, k: int)
    requires
        0 <= k <= s.len(),
        hex_number(s.take(k)) is None,
    ensures
        hex_number(s) is None,
    decreases s.len() - k,
{
    if k == s.len() {
        assert(s.take(k) =~= s);
    } else {
        assert(s.take(k + 1).drop_last() =~= s.take(k));
        lemma_hex_number_stuck(s, k + 1);
    }
}

fn parse_hex_group(s: &str) -> (r: Option<u16>)
    ensures
        r == hex_group(s@),
{
    let x = text::chars_of(s);
    if x.len() == 0 || x.len() > 4 {
        return None;
    }
    let mut value: u32 = 0;
    let mut i: usize = 0;
    while i < x.len()
        invariant
            x@ == s@,
            x@.len() <= 4,
            i <= x@.len(),
            hex_number(s@.take(i as int)) == Some(value as nat),
            i == 0 ==> value == 0,
            i == 1 ==> value < 0x10,
            i == 2 ==> value < 0x100,
            i == 3 ==> value < 0x1000,
            i == 4 ==> value < 0x10000,
        decreases x@.len() - i,
    {
        proof {
            assert(s@.take(i + 1).drop_last() =~= s@.take(i as int));
            assert(s@.take(i + 1).last() == x@[i as int]);
        }
        match hex_digit_value(x[i]) {
            Some(d) => {
                value = value * 16 + d as u32;
            },
            None => {
                proof {
                    lemma_hex_number_stuck(s@, i + 1);
                }
                return None;
            },
        }
        i += 1;
    }
    assert(s@.take(i as int) =~= s@);
    Some(value as u16)
}

proof fn lemma_hex_groups_stuck(parts: Seq<Seq<char>>, k: int)
    requires
        0 <= k <= parts.len(),
        hex_groups(parts.take(k)) is None,
    ensures
        hex_groups(parts) is None,
    decreases parts.len() - k,
{
    if k == parts.len() {
        assert(parts.take(k) =~= parts);
    } else {
        assert(parts.take(k + 1).drop_last() =~= parts.take(k));
        lemma_hex_groups_stuck(parts, k + 1);
    }
}

/// The values of the first `n` parts.
fn parse_hex_groups(parts: &[String], n: usize) -> (r: Option<Vec<u16>>)
    requires
        n <= parts@.len(),
    ensures
        match r {
            Some(groups) => hex_groups(text::texts(parts@).take(n as int)) == Some(groups@),
            None => hex_groups(text::texts(parts@).take(n as int)) is None,
        },
{
    let ghost all = text::texts(parts@);
    let ghost wanted = all.take(n as int);
    let mut out: Vec<u16> = Vec::new();
    let mut i: usize = 0;
    assert(all.take(0) =~= Seq::<Seq<char>>::empty());
    while i < n
        invariant
            all == text::texts(parts@),
            wanted == all.take(n as int),
            i <= n <= parts@.len(),
            hex_groups(all.take(i as int)) == Some(out@),
        decreases n - i,
    {
        proof {
            assert(all.take(i + 1).drop_last() =~= all.take(i as int));
            assert(all.take(i + 1).last() == parts@[i as int]@);
        }
        match parse_hex_group(parts[i].as_str()) {
            Some(group) => {
                out.push(group);
            },
            None => {
                proof {
                    assert(wanted.take(i + 1) =~= all.take(i + 1));
                    lemma_hex_groups_stuck(wanted, i + 1);
                }
                return None;
            },
        }
        i += 1;
    }
    Some(out)
}

fn has_dot(s: &str) -> (r: bool)
    ensures
        r == s@.contains('.'),
{
    let x = text::chars_of(s);
    let mut i: usize = 0;
    while i < x.len()
        invariant
            x@ == s@,
            i <= x@.len(),
            forall|j: int| 0 <= j < i ==> x@[j] != '.',
        decreases x@.len() - i,
    {
        if x[i] == '.' {
            assert(s@[i as int] == '.');
            return true;
        }
        i += 1;
    }
    false
}

fn parse_group_run(s: &str, v4_last: bool) -> (r: Option<Vec<u16>>)
    ensures
        match r {
            Some(groups) => group_run(s@, v4_last) == Some(groups@),
            None => group_run(s@, v4_last) is None,
        },
{
    if s.is_empty() {
        return Some(Vec::new());
    }
    let parts = text::split(s, ':');
    let n: usize = parts.len();
    let ghost all = text::texts(parts@);
    proof {
        assert(all.len() == n);
        assert(all.last() == parts@[n - 1]@);
        assert(all.take(n as int) =~= all);
        assert(all.take(n - 1) =~= all.drop_last());
    }
    if v4_last && has_dot(parts[n - 1].as_str()) {
        match (parse_hex_groups(parts.as_slice(), n - 1), parse_ipv4(parts[n - 1].as_str())) {
            (Some(groups), Some((a, b, c, d))) => {
                let mut out = groups;
                out.push(a as u16 * 256 + b as u16);
                out.push(c as u16 * 256 + d as u16);
                Some(out)
            },
            _ => None,
        }
    } else {
        parse_hex_groups(parts.as_slice(), n)
    }
}

/// The eight segments of an IPv6 address.
fn parse_ipv6(s: &str) -> (r: Option<Vec<u16>>)
    ensures
        match r {
            Some(segments) => ipv6(s@) == Some(segments@) && segments@.len() == 8,
            None => ipv6(s@) is None,
        },
{
    match text::split_once(s, "::") {
        None => match parse_group_run(s, true) {
            Some(groups) => {
                if groups.len() == 8 {
                    Some(groups)
                } else {
                    None
                }
            },
            None => None,
        },
        Some((head, tail)) => {
            match (parse_group_run(head.as_str(), false), parse_group_run(tail.as_str(), true)) {
                (Some(h), Some(t)) => {
                    if h.len() > 7 || t.len() > 7 - h.len() {
                        return None;
                    }
                    let ghost hs = h@;
                    let zeros: usize = 8 - h.len() - t.len();
                    let mut out = h;
                    let mut i: usize = 0;
                    while i < zeros
                        invariant
                            i <= zeros,
                            out@ == hs + Seq::new(i as nat, |j: int| 0u16),
                        decreases zeros - i,
                    {
                        out.push(0u16);
                        assert(out@ =~= hs + Seq::new((i + 1) as nat, |j: int| 0u16));
                        i += 1;
                    }
                    let ghost before = out@;
                    let mut k: usize = 0;
                    while k < t.len()
                        invariant
                            k <= t@.len(),
                            out@ == before + t@.take(k as int),
                        decreases t@.len() - k,
                    {
                        out.push(t[k]);
                        assert(out@ =~= before + t@.take(k + 1));
                        k += 1;
                    }
                    assert(t@.take(k as int) =~= t@);
                    Some(out)
                },
                _ => None,
            }
        },
    }
}

/// Whether a host is on this machine or its network: `localhost`, a `.local`
/// name, or an address that is private, loopback, unique local or link-local.
pub fn is_self_hosted_host(host: &str) -> (r: bool)
    ensures
        r == self_hosted(host@),
{
    if text::same(host, "localhost") || text::ends_with(host, ".local") {
        return true;
    }
    if let Some((a, b, _, _)) = parse_ipv4(host) {
        return a == 10 || (a == 172 && 16 <= b && b <= 31) || (a == 192 && b == 168) || a == 127
            || (a == 169 && b == 254);
    }
    match parse_ipv6(host) {
        Some(segments) => {
            let first: u16 = segments[0];
            let loopback = first == 0 && segments[1] == 0 && segments[2] == 0 && segments[3] == 0
                && segments[4] == 0 && segments[5] == 0 && segments[6] == 0 && segments[7] == 1;
            proof {
                let one = seq![0u16, 0, 0, 0, 0, 0, 0, 1];
                if loopback {
                    assert(segments@ =~= one);
                } else if segments@ == one {
                    assert(one[7] == 1);
                }
            }
            loopback || (0xfc00 <= first && first <= 0xfdff) || (0xfe80 <= first && first
                <= 0xfebf)
        },
        None => false,
    }
}

/// What stands in square brackets, where a text is bracketed.
pub open spec fn bracketed(host: Seq<char>) -> Option<Seq<char>> {
    if host.len() >= 2 && host[0] == '[' && host.last() == ']' {
        Some(host.subrange(1, host.len() - 1))
    } else {
        None
    }
}

/// Whether a host is an address of this machine. IPv6 addresses stand in
/// brackets.
pub open spec fn loopback(host: Seq<char>) -> bool {
    match ipv4(host) {
        Some((a, _, _, _)) => a == 127,
        None => match bracketed(host) {
            Some(inner) => ipv6(inner) == Some(seq![0u16, 0, 0, 0, 0, 0, 0, 1]),
            None => false,
        },
    }
}

/// Whether a host is an address of this machine.
pub fn is_loopback_host(host: &str) -> (r: bool)
    ensures
        r == loopback(host@),
{
    if let Some((a, _, _, _)) = parse_ipv4(host) {
        return a == 127;
    }
    let x = text::chars_of(host);
    let n: usize = x.len();
    if n < 2 || x[0] != '[' || x[n - 1] != ']' {
        return false;
    }
    let inner = text::string_between(x.as_slice(), 1, n - 1);
    match parse_ipv6(inner.as_str()) {
        Some(segments) => {
            let one = segments[0] == 0 && segments[1] == 0 && segments[2] == 0 && segments[3] == 0
                && segments[4] == 0 && segments[5] == 0 && segments[6] == 0 && segments[7] == 1;
            proof {
                let wanted = seq![0u16, 0, 0, 0, 0, 0, 0, 1];
                if one {
                    assert(segments@ =~= wanted);
                } else if segments@ == wanted {
                    assert(wanted[7] == 1);
                }
            }
            one
        },
        None => false,
    }
}

// ---------------------------------------------------------------------------
// Endpoint URLs
// ---------------------------------------------------------------------------

/// The host of an address without a scheme: what stands in brackets, or
/// before the port.
pub open spec fn bare_host(address: Seq<char>) -> Seq<char> {
    let authority = text::split_on(address, '/')[0];
    let before_port = text::split_on(authority, ':')[0];
    if authority.len() > 0 && authority[0] == '[' {
        match text::split_first(authority.drop_first(), "]"@) {
            Some((host, _)) => host,
            None => before_port,
        }
    } else {
        before_port
    }
}

/// An endpoint with a scheme: `http` for local hosts, else `https`, where it
/// has none.
pub open spec fn with_scheme(endpoint: Seq<char>) -> Seq<char> {
    let t = text::trimmed(endpoint);
    if t.len() == 0 || text::contains_text(t, "://"@) {
        t
    } else if self_hosted(bare_host(t)) {
        "http://"@ + t
    } else {
        "https://"@ + t
    }
}

/// Gives an endpoint a scheme where it has none.
pub fn ensure_scheme(endpoint: &str) -> (r: String)
    ensures
        r@ == with_scheme(endpoint@),
{
    let trimmed = text::trim(endpoint);
    if trimmed.as_str().is_empty() || text::contains(trimmed.as_str(), "://") {
        return trimmed;
    }
    let parts = text::split(trimmed.as_str(), '/');
    let authority = parts[0].as_str();
    let x = text::chars_of(authority);
    let bracketed = if x.len() > 0 && x[0] == '[' {
        let rest = text::string_between(x.as_slice(), 1, x.len());
        assert(rest@ =~= authority@.drop_first());
        text::split_once(rest.as_str(), "]")
    } else {
        None
    };
    proof {
        assert(text::texts(parts@)[0] == authority@);
    }
    let local = match bracketed {
        Some((host, _)) => is_self_hosted_host(host.as_str()),
        None => {
            let pieces = text::split(authority, ':');
            assert(text::texts(pieces@)[0] == pieces@[0]@);
            is_self_hosted_host(pieces[0].as_str())
        },
    };
    if local {
        text::concat2("http://", trimmed.as_str())
    } else {
        text::concat2("https://", trimmed.as_str())
    }
}

/// The paths of transcription requests that are cut off an endpoint.
pub open spec fn request_suffixes() -> Seq<Seq<char>> {
    seq![
        "/v1/audio/transcriptions"@,
        "/audio/transcriptions"@,
        "/v1/stt"@,
        "/stt"@,
        "/v1/speech-to-text"@,
        "/speech-to-text"@,
        "/v1/listen"@,
        "/listen"@,
    ]
}

/// `base` without the first of several suffixes that it ends with.
pub open spec fn without_suffix(base: Seq<char>, suffixes: Seq<Seq<char>>) -> Seq<char>
    decreases suffixes.len(),
{
    if suffixes.len() == 0 {
        base
    } else if text::finishes_with(base, suffixes[0]) {
        base.take(base.len() - suffixes[0].len())
    } else {
        without_suffix(base, suffixes.drop_first())
    }
}

/// Whether the last path segment is a version, such as `v1`.
pub open spec fn versioned(base: Seq<char>) -> bool {
    let segment = text::split_on(base, '/').last();
    segment.len() > 1 && segment[0] == 'v' && text::all_digits(segment.drop_first())
}

/// The base URL of the API behind an endpoint, with its version.
pub open spec fn base_url(endpoint: Seq<char>) -> Seq<char> {
    let full = text::strip_end(with_scheme(text::trimmed(endpoint)), '/');
    let base = text::strip_end(without_suffix(full, request_suffixes()), '/');
    if base.len() == 0 || versioned(base) {
        base
    } else {
        base + "/v1"@
    }
}

fn strip_suffixes(base: &str, suffixes: &[&str]) -> (r: String)
    ensures
        r@ == without_suffix(base@, text::strs(suffixes@)),
{
    let ghost all = text::strs(suffixes@);
    let mut i: usize = 0;
    assert(all.skip(0) =~= all);
    while i < suffixes.len()
        invariant
            i <= suffixes@.len(),
            all == text::strs(suffixes@),
            without_suffix(base@, all) == without_suffix(base@, all.skip(i as int)),
        decreases suffixes@.len() - i,
    {
        proof {
            assert(all.skip(i as int)[0] == suffixes@[i as int]@);
            assert(all.skip(i as int).drop_first() =~= all.skip(i + 1));
        }
        if text::ends_with(base, suffixes[i]) {
            let x = text::chars_of(base);
            let y = text::chars_of(suffixes[i]);
            let r = text::string_between(x.as_slice(), 0, x.len() - y.len());
            assert(r@ =~= base@.take(base@.len() - suffixes@[i as int]@.len()));
            return r;
        }
        i += 1;
    }
    text::owned(base)
}

fn ends_with_version_segment(base: &str) -> (r: bool)
    ensures
        r == versioned(base@),
{
    let parts = text::split(base, '/');
    let last = parts[parts.len() - 1].as_str();
    let ghost segment = last@;
    proof {
        assert(text::texts(parts@).last() == segment);
    }
    let x = text::chars_of(last);
    if x.len() <= 1 || x[0] != 'v' {
        return false;
    }
    let mut i: usize = 1;
    while i < x.len()
        invariant
            x@ == segment,
            segment == text::split_on(base@, '/').last(),
            1 <= i <= x@.len(),
            forall|j: int| 0 <= j < i - 1 ==> text::is_digit(#[trigger] segment.drop_first()[j]),
        decreases x@.len() - i,
    {
        assert(segment.drop_first()[i - 1] == x@[i as int]);
        if x[i] < '0' || x[i] > '9' {
            assert(!text::is_digit(segment.drop_first()[i - 1]));
            return false;
        }
        i += 1;
    }
    true
}

/// The base URL of the API behind an endpoint. The endpoint may be a host, a
/// base URL, or the URL of transcription requests.
pub fn api_base(endpoint: &str) -> (r: String)
    ensures
        r@ == base_url(endpoint@),
{
    let trimmed = text::trim(endpoint);
    let schemed = ensure_scheme(trimmed.as_str());
    let full = text::trim_end_matches(schemed.as_str(), '/');
    let suffixes: [&str; 8] = [
        "/v1/audio/transcriptions",
        "/audio/transcriptions",
        "/v1/stt",
        "/stt",
        "/v1/speech-to-text",
        "/speech-to-text",
        "/v1/listen",
        "/listen",
    ];
    assert(text::strs(suffixes@) =~= request_suffixes());
    let cut = strip_suffixes(full.as_str(), &suffixes);
    let base = text::trim_end_matches(cut.as_str(), '/');
    if base.as_str().is_empty() || ends_with_version_segment(base.as_str()) {
        base
    } else {
        text::concat2(base.as_str(), "/v1")
    }
}

// ---------------------------------------------------------------------------
// Laws
// ---------------------------------------------------------------------------

proof fn lemma_suffix_prefix(base: Seq<char>, suffixes: Seq<Seq<char>>)
    ensures
        without_suffix(base, suffixes).len() <= base.len(),
        without_suffix(base, suffixes) == base.take(without_suffix(base, suffixes).len() as int),
    decreases suffixes.len(),
{
    assert(base.take(base.len() as int) =~= base);
    if suffixes.len() > 0 && !text::finishes_with(base, suffixes[0]) {
        lemma_suffix_prefix(base, suffixes.drop_first());
    }
}

/// A base URL does not begin with white space.
proof fn lemma_base_start(endpoint: Seq<char>)
    requires
        base_url(endpoint).len() > 0,
    ensures
        !text::white_space(base_url(endpoint)[0]),
{
    let t = text::trimmed(endpoint);
    text::lemma_trimmed_ends(endpoint);
    text::lemma_trimmed_fixed(t);
    let schemed = with_scheme(t);
    reveal_strlit("http://");
    reveal_strlit("https://");
    let full = text::strip_end(schemed, '/');
    text::lemma_strip_end_prefix(schemed, '/');
    lemma_suffix_prefix(full, request_suffixes());
    let cut = without_suffix(full, request_suffixes());
    text::lemma_strip_end_prefix(cut, '/');
    let base = text::strip_end(cut, '/');
    assert(base.len() > 0);
    assert(base[0] == cut[0]);
    assert(cut[0] == full[0]);
    assert(full[0] == schemed[0]);
    assert(base_url(endpoint)[0] == base[0]);
}

proof fn lemma_versioned_end(base: Seq<char>)
    requires
        versioned(base),
    ensures
        base.len() > 0,
        text::is_digit(base.last()),
{
    let segment = text::split_on(base, '/').last();
    assert(segment.len() > 1);
    assert(segment.last() == base.last());
    let digits = segment.drop_first();
    assert(text::is_digit(digits[digits.len() - 1]));
}

/// A base URL ends with a version.
pub proof fn law_base_urls_are_versioned(endpoint: Seq<char>)
    ensures
        base_url(endpoint).len() > 0 ==> versioned(base_url(endpoint)),
{
    let full = text::strip_end(with_scheme(text::trimmed(endpoint)), '/');
    let base = text::strip_end(without_suffix(full, request_suffixes()), '/');
    if base.len() > 0 && !versioned(base) {
        let version = seq!['v', '1'];
        reveal_strlit("/v1");
        assert(base + "/v1"@ =~= base.push('/') + version);
        text::lemma_split_concat(base, version, '/');
        assert(version.drop_last() =~= seq!['v']);
        assert(seq!['v'].drop_last() =~= Seq::<char>::empty());
        let none = seq![Seq::<char>::empty()];
        assert(text::split_on(Seq::<char>::empty(), '/') == none);
        assert(none.drop_last().push(none.last().push('v')) =~= seq![seq!['v']]);
        assert(text::split_on(seq!['v'], '/') == seq![seq!['v']]);
        let one = seq![seq!['v']];
        assert(one.last().push('1') =~= version);
        assert(one.drop_last().push(one.last().push('1')) =~= seq![version]);
        assert(text::split_on(version, '/') == seq![version]);
        assert(text::split_on(base_url(endpoint), '/').last() == version);
        assert(text::all_digits(version.drop_first()));
    }
}

proof fn lemma_scheme_stays(base: Seq<char>, path: Seq<char>)
    requires
        text::contains_text(base, "://"@),
        !text::white_space(base[0]),
        path.len() > 0 ==> !text::white_space(path.last()) && path.last() != '/',
        path.len() == 0 ==> !text::white_space(base.last()) && base.last() != '/',
    ensures
        text::strip_end(with_scheme(text::trimmed(base + path)), '/') == base + path,
{
    let whole = base + path;
    reveal_strlit("://");
    let i = choose|i: int| text::occurs_at(base, "://"@, i);
    assert(whole.subrange(i, i + 3) =~= base.subrange(i, i + 3));
    assert(text::occurs_at(whole, "://"@, i));
    text::lemma_trimmed_fixed(whole);
}

/// The base URL of an endpoint can itself be given as the endpoint, as long
/// as it kept its scheme.
pub proof fn law_base_urls_are_endpoints(endpoint: Seq<char>)
    requires
        text::contains_text(base_url(endpoint), "://"@),
    ensures
        base_url(base_url(endpoint)) == base_url(endpoint),
{
    let base = base_url(endpoint);
    reveal_strlit("://");
    law_base_urls_are_versioned(endpoint);
    lemma_base_start(endpoint);
    lemma_versioned_end(base);
    lemma_scheme_stays(base, Seq::empty());
    assert(base + Seq::<char>::empty() =~= base);
    lemma_suffix_chars();
    lemma_no_suffix(base, request_suffixes());
}

proof fn lemma_suffix_chars()
    ensures
        forall|i: int|
            0 <= i < request_suffixes().len() ==> (#[trigger] request_suffixes()[i]).len() >= 4
                && !text::is_digit(request_suffixes()[i].last()),
        request_suffixes().len() == 8,
        request_suffixes()[0] == "/v1"@ + "/audio/transcriptions"@,
        request_suffixes()[1] == "/audio/transcriptions"@,
        request_suffixes()[2] == "/v1"@ + "/stt"@,
        request_suffixes()[3] == "/stt"@,
        request_suffixes()[4] == "/v1"@ + "/speech-to-text"@,
        request_suffixes()[5] == "/speech-to-text"@,
        request_suffixes()[6] == "/v1"@ + "/listen"@,
        request_suffixes()[7] == "/listen"@,
{
    reveal_strlit("/v1");
    reveal_strlit("/v1/audio/transcriptions");
    reveal_strlit("/audio/transcriptions");
    reveal_strlit("/v1/stt");
    reveal_strlit("/stt");
    reveal_strlit("/v1/speech-to-text");
    reveal_strlit("/speech-to-text");
    reveal_strlit("/v1/listen");
    reveal_strlit("/listen");
    assert("/v1/audio/transcriptions"@ =~= "/v1"@ + "/audio/transcriptions"@);
    assert("/v1/stt"@ =~= "/v1"@ + "/stt"@);
    assert("/v1/speech-to-text"@ =~= "/v1"@ + "/speech-to-text"@);
    assert("/v1/listen"@ =~= "/v1"@ + "/listen"@);
}

proof fn lemma_no_suffix(base: Seq<char>, suffixes: Seq<Seq<char>>)
    requires
        base.len() > 0,
        text::is_digit(base.last()),
        forall|i: int|
            0 <= i < suffixes.len() ==> (#[trigger] suffixes[i]).len() > 0 && !text::is_digit(
                suffixes[i].last(),
            ),
    ensures
        without_suffix(base, suffixes) == base,
    decreases suffixes.len(),
{
    if suffixes.len() > 0 {
        let s = suffixes[0];
        if text::finishes_with(base, s) {
            let tail = base.subrange(base.len() - s.len(), base.len() as int);
            assert(tail.last() == base.last());
        }
        assert forall|i: int| 0 <= i < suffixes.drop_first().len() implies (
        #[trigger] suffixes.drop_first()[i]).len() > 0 && !text::is_digit(
            suffixes.drop_first()[i].last(),
        ) by {
            assert(suffixes.drop_first()[i] == suffixes[i + 1]);
        }
        lemma_no_suffix(base, suffixes.drop_first());
    }
}

/// Whether nothing but a version stands before the `/v1` at the end of a base
/// URL, or nothing at all.
pub open spec fn doubly_versioned(base: Seq<char>) -> bool {
    text::finishes_with(base, "/v1"@) && {
        let before = base.take(base.len() - 3);
        before.len() == 0 || before.last() == '/' || versioned(before)
    }
}

proof fn lemma_tail_char(full: Seq<char>, s: Seq<char>, j: int)
    requires
        text::finishes_with(full, s),
        0 <= j < s.len(),
    ensures
        full[full.len() - 1 - j] == s[s.len() - 1 - j],
{
    let tail = full.subrange(full.len() - s.len(), full.len() as int);
    assert(tail[s.len() - 1 - j] == full[full.len() - 1 - j]);
}

proof fn lemma_skip_suffixes(full: Seq<char>, suffixes: Seq<Seq<char>>, k: int)
    requires
        0 <= k <= suffixes.len(),
        forall|i: int| 0 <= i < k ==> !text::finishes_with(full, #[trigger] suffixes[i]),
    ensures
        without_suffix(full, suffixes) == without_suffix(full, suffixes.skip(k)),
    decreases k,
{
    if k == 0 {
        assert(suffixes.skip(0) =~= suffixes);
    } else {
        let rest = suffixes.drop_first();
        assert forall|i: int| 0 <= i < k - 1 implies !text::finishes_with(
            full,
            #[trigger] rest[i],
        ) by {
            assert(rest[i] == suffixes[i + 1]);
        }
        lemma_skip_suffixes(full, rest, k - 1);
        assert(rest.skip(k - 1) =~= suffixes.skip(k));
    }
}

/// Where the path of a request stands among the suffixes: after the paths that
/// a URL with it does not end with.
proof fn lemma_path_place(full: Seq<char>, path: Seq<char>) -> (k: int)
    requires
        text::one_of(path, request_paths()),
        text::finishes_with(full, path),
    ensures
        0 <= k < 7,
        request_suffixes()[k] == "/v1"@ + path,
        request_suffixes()[k + 1] == path,
        forall|i: int| 0 <= i < k ==> !text::finishes_with(full, #[trigger] request_suffixes()[i]),
{
    lemma_suffix_chars();
    reveal_strlit("/v1");
    reveal_strlit("/audio/transcriptions");
    reveal_strlit("/stt");
    reveal_strlit("/speech-to-text");
    reveal_strlit("/listen");
    let which = choose|i: int| 0 <= i < request_paths().len() && path == #[trigger] request_paths()[i];
    let k = 2 * which;
    assert(request_paths().len() == 4);
    lemma_tail_char(full, path, 0);
    lemma_tail_char(full, path, 1);
    assert forall|i: int| 0 <= i < k implies !text::finishes_with(
        full,
        #[trigger] request_suffixes()[i],
    ) by {
        if text::finishes_with(full, request_suffixes()[i]) {
            lemma_tail_char(full, request_suffixes()[i], 0);
            lemma_tail_char(full, request_suffixes()[i], 1);
        }
    }
    k
}

/// The paths that transcription requests are sent to.
pub open spec fn request_paths() -> Seq<Seq<char>> {
    seq!["/audio/transcriptions"@, "/stt"@, "/speech-to-text"@, "/listen"@]
}

/// The URL that requests are sent to can itself be given as the endpoint, as
/// long as its base kept its scheme and has no second version before `/v1`.
pub proof fn law_request_urls_are_endpoints(endpoint: Seq<char>, path: Seq<char>)
    requires
        text::one_of(path, request_paths()),
        text::contains_text(base_url(endpoint), "://"@),
        !doubly_versioned(base_url(endpoint)),
    ensures
        base_url(base_url(endpoint) + path) == base_url(endpoint),
{
    let base = base_url(endpoint);
    let full = base + path;
    reveal_strlit("://");
    reveal_strlit("/v1");
    reveal_strlit("/audio/transcriptions");
    reveal_strlit("/stt");
    reveal_strlit("/speech-to-text");
    reveal_strlit("/listen");
    law_base_urls_are_versioned(endpoint);
    lemma_base_start(endpoint);
    lemma_versioned_end(base);
    lemma_scheme_stays(base, path);
    let n = base.len() as int;
    assert(full.subrange(n, full.len() as int) =~= path);
    assert(text::finishes_with(full, path));
    let k = lemma_path_place(full, path);
    let suffixes = request_suffixes();
    let long = "/v1"@ + path;
    if text::finishes_with(base, "/v1"@) {
        assert(base.subrange(n - 3, n) == "/v1"@);
        assert(full.subrange(n - 3, full.len() as int) =~= base.subrange(n - 3, n) + path);
        assert(text::finishes_with(full, long));
        lemma_skip_suffixes(full, suffixes, k);
        assert(suffixes.skip(k)[0] == long);
        let before = base.take(n - 3);
        assert(full.take(full.len() - long.len()) =~= before);
        assert(without_suffix(full, suffixes) == before);
        assert(before + "/v1"@ =~= base);
    } else {
        if text::finishes_with(full, long) {
            let tail = full.subrange(n - 3, full.len() as int);
            assert(tail == long);
            assert(base.subrange(n - 3, n) =~= tail.take(3));
            assert(long.take(3) =~= "/v1"@);
            assert(text::finishes_with(base, "/v1"@));
        }
        assert(!text::finishes_with(full, suffixes[k]));
        lemma_skip_suffixes(full, suffixes, k + 1);
        assert(suffixes.skip(k + 1)[0] == path);
        assert(full.take(full.len() - path.len()) =~= base);
        assert(without_suffix(full, suffixes) == base);
    }
}

/// An IPv4 address is read as its four numbers, written in decimal with dots
/// between them.
pub proof fn law_ipv4_addresses_are_read(a: u8, b: u8, c: u8, d: u8)
    ensures
        ipv4(
            text::decimal(a as nat) + seq!['.'] + text::decimal(b as nat) + seq!['.']
                + text::decimal(c as nat) + seq!['.'] + text::decimal(d as nat),
        ) == Some((a, b, c, d)),
{
    let parts = seq![
        text::decimal(a as nat),
        text::decimal(b as nat),
        text::decimal(c as nat),
        text::decimal(d as nat),
    ];
    lemma_octet(a);
    lemma_octet(b);
    lemma_octet(c);
    lemma_octet(d);
    let s = parts[0] + seq!['.'] + parts[1] + seq!['.'] + parts[2] + seq!['.'] + parts[3];
    assert forall|j: int, i: int|
        0 <= j < parts.len() && 0 <= i < parts[j].len() implies #[trigger] parts[j][i] != '.' by {
        let n: nat = if j == 0 {
            a as nat
        } else if j == 1 {
            b as nat
        } else if j == 2 {
            c as nat
        } else {
            d as nat
        };
        laws::law_decimal_notation(n);
        assert(parts[j] == text::decimal(n));
        assert('0' <= text::decimal(n)[i] <= '9');
    }
    reveal_with_fuel(text::joined, 5);
    assert(text::joined(parts, seq!['.']) =~= s);
    text::lemma_split_joined(parts, '.');
}

proof fn lemma_octet(a: u8)
    ensures
        octet(text::decimal(a as nat)) == Some(a),
{
    laws::law_decimal_notation(a as nat);
    let s = text::decimal(a as nat);
    assert(text::all_digits(s)) by {
        assert forall|i: int| 0 <= i < s.len() implies text::is_digit(#[trigger] s[i]) by {
            assert('0' <= text::decimal(a as nat)[i] <= '9');
        }
    }
    assert(s.len() <= 3) by {
        reveal_with_fuel(text::decimal, 4);
    }
}

/// The private networks, this machine and link-local addresses are local, and
/// nothing else is.
pub proof fn law_local_addresses(a: u8, b: u8)
    ensures
        local_ipv4(a, b) <==> a == 10 || a == 127 || (a == 172 && 16 <= b && b < 32) || (a == 192
            && b == 168) || (a == 169 && b == 254),
{
}

/// `localhost`, names under `.local` and local addresses are self-hosted; other
/// IPv4 addresses are not.
pub proof fn law_self_hosted_hosts(host: Seq<char>)
    ensures
        self_hosted("localhost"@),
        self_hosted(host + ".local"@),
        ipv4(host) matches Some((a, b, _, _)) ==> (loopback(host) <==> a == 127) && (host
            != "localhost"@ && !text::finishes_with(host, ".local"@) ==> (self_hosted(host)
            <==> local_ipv4(a, b))),
{
    let named = host + ".local"@;
    let n = ".local"@.len() as int;
    assert(named.subrange(named.len() - n, named.len() as int) =~= ".local"@);
}

/// An endpoint with a scheme keeps it. One without gets `http` where it is on
/// this machine or its network, and `https` elsewhere.
pub proof fn law_schemes(endpoint: Seq<char>)
    ensures
        ({
            let t = text::trimmed(endpoint);
            &&& text::contains_text(t, "://"@) || t.len() == 0 ==> with_scheme(endpoint) == t
            &&& !text::contains_text(t, "://"@) && t.len() > 0 && self_hosted(bare_host(t))
                ==> with_scheme(endpoint) == "http://"@ + t
            &&& !text::contains_text(t, "://"@) && t.len() > 0 && !self_hosted(bare_host(t))
                ==> with_scheme(endpoint) == "https://"@ + t
        }),
{
}

/// An endpoint that names neither a version nor a request is asked in version
/// one; one that ends with a version is taken as it is.
pub proof fn law_versions_are_added(endpoint: Seq<char>)
    requires
        text::trimmed(endpoint) == endpoint,
        text::contains_text(endpoint, "://"@),
        endpoint.last() != '/',
        !text::finishes_with(endpoint, "/audio/transcriptions"@),
        !text::finishes_with(endpoint, "/stt"@),
        !text::finishes_with(endpoint, "/speech-to-text"@),
        !text::finishes_with(endpoint, "/listen"@),
    ensures
        versioned(endpoint) ==> base_url(endpoint) == endpoint,
        !versioned(endpoint) ==> base_url(endpoint) == endpoint + "/v1"@,
{
    reveal_strlit("://");
    assert(endpoint.len() > 0) by {
        let i = choose|i: int| text::occurs_at(endpoint, "://"@, i);
        assert(endpoint.len() >= 3);
    }
    let full = text::strip_end(with_scheme(endpoint), '/');
    assert(full == endpoint);
    let suffixes = request_suffixes();
    lemma_longer_suffix(endpoint, "/v1"@, "/audio/transcriptions"@);
    lemma_longer_suffix(endpoint, "/v1"@, "/stt"@);
    lemma_longer_suffix(endpoint, "/v1"@, "/speech-to-text"@);
    lemma_longer_suffix(endpoint, "/v1"@, "/listen"@);
    reveal_strlit("/v1");
    reveal_strlit("/audio/transcriptions");
    reveal_strlit("/v1/audio/transcriptions");
    reveal_strlit("/stt");
    reveal_strlit("/v1/stt");
    reveal_strlit("/speech-to-text");
    reveal_strlit("/v1/speech-to-text");
    reveal_strlit("/listen");
    reveal_strlit("/v1/listen");
    assert("/v1"@ + "/audio/transcriptions"@ =~= "/v1/audio/transcriptions"@);
    assert("/v1"@ + "/stt"@ =~= "/v1/stt"@);
    assert("/v1"@ + "/speech-to-text"@ =~= "/v1/speech-to-text"@);
    assert("/v1"@ + "/listen"@ =~= "/v1/listen"@);
    assert forall|i: int| 0 <= i < suffixes.len() implies !text::finishes_with(
        endpoint,
        #[trigger] suffixes[i],
    ) by {}
    lemma_kept_base(endpoint, suffixes);
}

proof fn lemma_longer_suffix(s: Seq<char>, front: Seq<char>, suffix: Seq<char>)
    requires
        !text::finishes_with(s, suffix),
    ensures
        !text::finishes_with(s, front + suffix),
{
    let whole = front + suffix;
    if text::finishes_with(s, whole) {
        let n = s.len() as int;
        assert(s.subrange(n - whole.len(), n) == whole);
        assert(s.subrange(n - suffix.len(), n) =~= s.subrange(n - whole.len(), n).skip(
            front.len() as int,
        ));
        assert(whole.skip(front.len() as int) =~= suffix);
    }
}

proof fn lemma_kept_base(s: Seq<char>, suffixes: Seq<Seq<char>>)
    requires
        forall|i: int| 0 <= i < suffixes.len() ==> !text::finishes_with(s, #[trigger] suffixes[i]),
    ensures
        without_suffix(s, suffixes) == s,
    decreases suffixes.len(),
{
    if suffixes.len() > 0 {
        assert(!text::finishes_with(s, suffixes[0]));
        let rest = suffixes.drop_first();
        assert forall|i: int| 0 <= i < rest.len() implies !text::finishes_with(
            s,
            #[trigger] rest[i],
        ) by {
            assert(rest[i] == suffixes[i + 1]);
        }
        lemma_kept_base(s, rest);
    }
}

/// A version is a `v` and digits after the last slash.
pub proof fn law_what_a_version_is(front: Seq<char>, segment: Seq<char>)
    requires
        !segment.contains('/'),
    ensures
        versioned(front.push('/') + segment) <==> segment.len() > 1 && segment[0] == 'v' && forall|
            i: int,
        |
            1 <= i < segment.len() ==> '0' <= #[trigger] segment[i] <= '9',
{
    assert forall|i: int| 0 <= i < segment.len() implies #[trigger] segment[i] != '/' by {
        assert(segment.contains(segment[i]));
    }
    text::lemma_split_none(segment, '/');
    text::lemma_split_concat(front, segment, '/');
    assert((text::split_on(front, '/') + seq![segment]).last() == segment);
    if segment.len() > 1 {
        let digits = segment.drop_first();
        if text::all_digits(digits) {
            assert forall|i: int| 1 <= i < segment.len() implies '0' <= #[trigger] segment[i]
                <= '9' by {
                assert(text::is_digit(digits[i - 1]));
            }
        } else {
            let i = choose|i: int| 0 <= i < digits.len() && !text::is_digit(#[trigger] digits[i]);
            assert(segment[i + 1] == digits[i]);
        }
    }
}

/// The host of an address is what stands before its port and its path.
pub proof fn law_hosts_of_addresses(host: Seq<char>, port: Seq<char>, path: Seq<char>)
    requires
        host.len() > 0,
        host[0] != '[',
        !host.contains(':') && !host.contains('/'),
        !port.contains('/'),
    ensures
        bare_host(host) == host,
        bare_host(host.push(':') + port) == host,
        bare_host(host.push('/') + path) == host,
{
    lemma_free_of(host, '/');
    lemma_free_of(host, ':');
    lemma_free_of(port, '/');
    text::lemma_split_none(host, '/');
    text::lemma_split_none(host, ':');
    text::lemma_split_concat(host, path, '/');
    text::lemma_split_concat(host, port, ':');
    let with_port = host.push(':') + port;
    assert forall|i: int| 0 <= i < with_port.len() implies #[trigger] with_port[i] != '/' by {
        if i < host.len() {
            assert(with_port[i] == host[i]);
        } else if i > host.len() {
            assert(with_port[i] == port[i - host.len() - 1]);
        }
    }
    text::lemma_split_none(with_port, '/');
    assert(with_port[0] == host[0]);
}

proof fn lemma_free_of(s: Seq<char>, c: char)
    requires
        !s.contains(c),
    ensures
        forall|i: int| 0 <= i < s.len() ==> #[trigger] s[i] != c,
{
    assert forall|i: int| 0 <= i < s.len() implies #[trigger] s[i] != c by {
        assert(s.contains(s[i]));
    }
}

/// A hexadecimal digit counts up to fifteen, in either letter case, and digits in
/// a row count sixteens.
pub proof fn law_hexadecimal_numbers(s: Seq<char>, c: char)
    ensures
        hex_digit(c) is Some <==> ('0' <= c <= '9') || ('a' <= c <= 'f') || ('A' <= c <= 'F'),
        '0' <= c <= '9' ==> hex_digit(c) == Some((c as int - 48) as nat),
        'a' <= c <= 'f' ==> hex_digit(c) == Some((c as int - 97 + 10) as nat),
        'A' <= c <= 'F' ==> hex_digit(c) == Some((c as int - 65 + 10) as nat),
        hex_number(s) is Some && hex_digit(c) is Some ==> hex_number(s.push(c)) == Some(
            (hex_number(s)->0 * 16 + hex_digit(c)->0) as nat,
        ),
        hex_number(Seq::<char>::empty()) == Some(0nat),
{
    assert(s.push(c).drop_last() =~= s);
}

/// Of IPv6 addresses, this machine, unique local and link-local ones are local.
pub proof fn law_local_ipv6_addresses(segments: Seq<u16>)
    requires
        segments.len() == 8,
    ensures
        local_ipv6(segments) <==> segments[0] / 512 == 0x7e || segments[0] / 64 == 0x3fa || segments
            == seq![0u16, 0, 0, 0, 0, 0, 0, 1],
{
}

/// The paths that transcription requests are sent to, each with the version that
/// may stand before it.
pub proof fn law_request_paths()
    ensures
        request_paths() == seq!["/audio/transcriptions"@, "/stt"@, "/speech-to-text"@, "/listen"@],
{
}

/// The groups of an IPv6 address are read one by one.
pub proof fn law_groups_are_read_one_by_one(parts: Seq<Seq<char>>, i: int)
    ensures
        hex_groups(parts) matches Some(groups) ==> groups.len() == parts.len() && (0 <= i
            < parts.len() ==> hex_group(parts[i]) == Some(groups[i])),
        hex_groups(parts) is None ==> exists|j: int|
            0 <= j < parts.len() && hex_group(#[trigger] parts[j]) is None,
        0 <= i < parts.len() && hex_group(parts[i]) is Some ==> 1 <= parts[i].len() <= 4
            && hex_number(parts[i]) is Some,
    decreases parts.len(),
{
    if parts.len() > 0 {
        let init = parts.drop_last();
        law_groups_are_read_one_by_one(init, i);
        if hex_groups(init) is None {
            let j = choose|j: int| 0 <= j < init.len() && hex_group(#[trigger] init[j]) is None;
            assert(parts[j] == init[j]);
        } else if hex_group(parts.last()) is None {
            assert(parts[parts.len() - 1] == parts.last());
        }
        if 0 <= i < init.len() {
            assert(parts[i] == init[i]);
        }
    }
}

/// Two colons stand for as many zeros as an IPv6 address lacks.
pub proof fn law_gaps_are_zeros(s: Seq<char>, head: Seq<char>, tail: Seq<char>)
    requires
        text::split_first(s, "::"@) == Some((head, tail)),
        group_run(head, false) is Some,
        group_run(tail, true) is Some,
        group_run(head, false)->0.len() + group_run(tail, true)->0.len() <= 7,
    ensures
        ({
            let h = group_run(head, false)->0;
            let t = group_run(tail, true)->0;
            let all = ipv6(s)->0;
            &&& ipv6(s) is Some
            &&& all.len() == 8
            &&& all.take(h.len() as int) == h
            &&& all.skip(8 - t.len()) == t
            &&& forall|i: int| h.len() <= i < 8 - t.len() ==> #[trigger] all[i] == 0
        }),
{
    let h = group_run(head, false)->0;
    let t = group_run(tail, true)->0;
    let all = ipv6(s)->0;
    assert(all.take(h.len() as int) =~= h);
    assert(all.skip(8 - t.len()) =~= t);
}

} // verus!
