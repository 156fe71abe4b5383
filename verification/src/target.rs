//! Which URLs a webhook may be sent to.

use crate::address::{
    is_public_ipv4, is_public_ipv6, public_ipv4, public_ipv6, Ipv4Addr, Ipv6Addr,
};
use crate::text::{ascii_lower, ends_with, lower_starts_with, same_text, trim_end, trim_end_matches};
use vstd::prelude::*;

verus! {

/// The host of a URL.
#[derive(Debug, PartialEq, Eq)]
pub enum Host {
    Domain(String),
    Ipv4(Ipv4Addr),
    Ipv6(Ipv6Addr),
}

/// What a [`Host`] holds.
pub enum HostView {
    Domain(Seq<char>),
    Ipv4(Ipv4Addr),
    Ipv6(Ipv6Addr),
}

impl View for Host {
    type V = HostView;

    open spec fn view(&self) -> HostView {
        match *self {
            Host::Domain(name) => HostView::Domain(name@),
            Host::Ipv4(ip) => HostView::Ipv4(ip),
            Host::Ipv6(ip) => HostView::Ipv6(ip),
        }
    }
}

/// The view of an optional host.
pub open spec fn host_view(host: Option<Host>) -> Option<HostView> {
    match host {
        Some(h) => Some(h@),
        None => None,
    }
}

/// The host that `reqwest::Url` reads in `url`: none where the text is no URL or names no host.
pub uninterp spec fn url_host(url: Seq<char>) -> Option<HostView>;

/// `reqwest::Url::parse`, then `host` of the parsed URL: the host is a function of the text, none
/// where parsing fails or the URL has no host. The parser normalises the text as the WHATWG URL
/// standard has it, so alternate spellings of an address come back as that address.
#[verifier::external_body]
fn parse_host(url: &str) -> (host: Option<Host>)
    ensures
        host_view(host) == url_host(url@),
{
    let parsed = reqwest::Url::parse(url).ok()?;
    let host = match parsed.host()? {
        url::Host::Domain(name) => Host::Domain(name.to_string()),
        url::Host::Ipv4(ip) => Host::Ipv4(Ipv4Addr { octets: ip.octets() }),
        url::Host::Ipv6(ip) => Host::Ipv6(Ipv6Addr { segments: ip.segments() }),
    };
    Some(host)
}

/// `url` starts with `http://` or `https://`, in any mix of cases.
pub open spec fn has_http_scheme(url: Seq<char>) -> bool {
    ||| "http://"@.is_prefix_of(ascii_lower(url))
    ||| "https://"@.is_prefix_of(ascii_lower(url))
}

/// A hostname that is public: without its trailing root dots it is neither empty, nor
/// `localhost`, nor below `.localhost` or `.local`.
pub open spec fn public_hostname(host: Seq<char>) -> bool {
    let name = trim_end(host, '.');
    &&& name.len() > 0
    &&& name != "localhost"@
    &&& !".localhost"@.is_suffix_of(name)
    &&& !".local"@.is_suffix_of(name)
}

/// A host that is public, by address or by name.
pub open spec fn public_host(host: HostView) -> bool {
    match host {
        HostView::Domain(name) => public_hostname(name),
        HostView::Ipv4(ip) => public_ipv4(ip),
        HostView::Ipv6(ip) => public_ipv6(ip),
    }
}

/// The setting that lets webhooks reach local targets is turned on.
pub open spec fn local_allowed(setting: Option<&str>) -> bool {
    match setting {
        Some(value) => value@ == "1"@,
        None => false,
    }
}

/// A URL may be used: it is `http` or `https`, and its host is public or local targets are
/// allowed.
pub open spec fn safe_url(url: Seq<char>, host: Option<HostView>, allow_local: bool) -> bool {
    &&& has_http_scheme(url)
    &&& allow_local || (host matches Some(h) && public_host(h))
}

/// A trailing root dot changes nothing in how a hostname is judged.
pub proof fn root_dot_is_ignored(host: Seq<char>)
    ensures
        public_hostname(host.push('.')) == public_hostname(host),
{
    assert(host.push('.').drop_last() =~= host);
}

/// Names below `localhost` and below `local` are never public, with or without root dots.
pub proof fn local_names_are_blocked(sub: Seq<char>)
    ensures
        !public_hostname("localhost"@),
        !public_hostname(sub + ".localhost"@),
        !public_hostname(sub + ".local"@),
{
    reveal_strlit("localhost");
    reveal_strlit(".localhost");
    reveal_strlit(".local");
    let a = sub + ".localhost"@;
    let b = sub + ".local"@;
    assert(a.last() == 't');
    assert(b.last() == 'l');
    assert(a.subrange(a.len() - 10, a.len() as int) =~= ".localhost"@);
    assert(b.subrange(b.len() - 6, b.len() as int) =~= ".local"@);
}

/// The local-webhooks setting only ever admits more: what is safe without it is safe with it, and
/// no setting admits a URL that is neither `http` nor `https`.
pub proof fn setting_only_widens(url: Seq<char>, host: Option<HostView>, allow_local: bool)
    ensures
        safe_url(url, host, false) ==> safe_url(url, host, allow_local),
        !has_http_scheme(url) ==> !safe_url(url, host, allow_local),
        has_http_scheme(url) ==> safe_url(url, host, true),
{
}

/// Hostname blocklist; a trailing root dot (`localhost.`) resolves identically so is ignored.
pub fn is_public_hostname(host: &str) -> (r: bool)
    ensures
        r == public_hostname(host@),
{
    let name = trim_end_matches(host, '.');
    !(name.is_empty() || same_text(name, "localhost") || ends_with(name, ".localhost") || ends_with(
        name,
        ".local",
    ))
}

/// Whether a host is public, by address or by name.
pub fn is_public_host(host: &Host) -> (r: bool)
    ensures
        r == public_host(host@),
{
    match host {
        Host::Domain(name) => is_public_hostname(name.as_str()),
        Host::Ipv4(ip) => is_public_ipv4(*ip),
        Host::Ipv6(ip) => is_public_ipv6(*ip),
    }
}

/// Whether `url` starts with `http://` or `https://`, in any mix of cases.
pub fn is_http_url(url: &str) -> (r: bool)
    ensures
        r == has_http_scheme(url@),
{
    lower_starts_with(url, "http://") || lower_starts_with(url, "https://")
}

/// Whether the value of the local-webhooks setting turns it on: only `1` does.
pub fn allows_local(setting: Option<&str>) -> (r: bool)
    ensures
        r == local_allowed(setting),
{
    match setting {
        Some(value) => same_text(value, "1"),
        None => false,
    }
}

/// The verdict on a URL whose host is known.
pub fn is_safe_target(url: &str, host: Option<Host>, allow_local: bool) -> (r: bool)
    ensures
        r == safe_url(url@, host_view(host), allow_local),
{
    if !is_http_url(url) {
        return false;
    }
    if allow_local {
        return true;
    }
    match host {
        Some(h) => is_public_host(&h),
        None => false,
    }
}

/// Rejects obviously-internal webhook targets (defense-in-depth against server-side request
/// forgery). Only `http`/`https` to non-loopback, non-private hosts are allowed.
///
/// The host is taken from the WHATWG-normalised URL, the same parse that `reqwest` connects with,
/// so alternate encodings (`[::ffff:7f00:1]`, `0x7f.1`, `2130706433`, `0`) are classified by the
/// address they actually reach, not by how they were spelled.
///
/// `local_setting` is the value of `OCTO_ALLOW_LOCAL_WEBHOOKS`, if it is set. It is a development
/// escape hatch: `1` lets loopback and private targets pass.
pub fn is_safe_url(url: &str, local_setting: Option<&str>) -> (r: bool)
    ensures
        r == safe_url(url@, url_host(url@), local_allowed(local_setting)),
{
    is_safe_target(url, parse_host(url), allows_local(local_setting))
}

/// A run of `n` dots.
pub open spec fn dots(n: nat) -> Seq<char> {
    Seq::new(n, |i: int| '.')
}

proof fn lemma_trim_drops_the_dots(name: Seq<char>, n: nat)
    requires
        name.len() == 0 || name.last() != '.',
    ensures
        trim_end(name + dots(n), '.') == name,
    decreases n,
{
    let host = name + dots(n);
    if n == 0 {
        assert(host =~= name);
    } else {
        assert(host.drop_last() =~= name + dots((n - 1) as nat));
        lemma_trim_drops_the_dots(name, (n - 1) as nat);
    }
}

proof fn lemma_trim_drops_only_dots(host: Seq<char>)
    ensures
        ({
            let name = trim_end(host, '.');
            &&& name.len() <= host.len()
            &&& host == name + dots((host.len() - name.len()) as nat)
            &&& name.len() == 0 || name.last() != '.'
        }),
    decreases host.len(),
{
    let name = trim_end(host, '.');
    if host.len() > 0 && host.last() == '.' {
        lemma_trim_drops_only_dots(host.drop_last());
        let n = (host.len() - name.len()) as nat;
        assert(host =~= host.drop_last().push('.'));
        assert(host =~= name + dots(n));
    } else {
        assert(host =~= name + dots(0));
    }
}

/// The verdict on a hostname, in both directions. Take a name that does not end in a dot, and any
/// number of root dots behind it: it is public if and only if the name is not empty, is not
/// `localhost`, and is neither some text followed by `.localhost` nor some text followed by
/// `.local`.
pub proof fn hostname_is_judged_without_its_dots(
    host: &str,
    name: Seq<char>,
    n: nat,
    public: bool,
)
    requires
        call_ensures(is_public_hostname, (host,), public),
        host@ == name + dots(n),
        name.len() == 0 || name.last() != '.',
    ensures
        !public <==> {
            ||| name.len() == 0
            ||| name == "localhost"@
            ||| exists|sub: Seq<char>| name == #[trigger] (sub + ".localhost"@)
            ||| exists|sub: Seq<char>| name == #[trigger] (sub + ".local"@)
        },
        public_hostname(host@) == public,
{
    lemma_trim_drops_the_dots(name, n);
    lemma_suffix_is_what_follows(name, ".localhost"@);
    lemma_suffix_is_what_follows(name, ".local"@);
}

proof fn lemma_suffix_is_what_follows(name: Seq<char>, suffix: Seq<char>)
    ensures
        suffix.is_suffix_of(name) <==> exists|sub: Seq<char>| name == #[trigger] (sub + suffix),
{
    if suffix.is_suffix_of(name) {
        let sub = name.take(name.len() - suffix.len());
        assert(name =~= sub + suffix);
    }
    assert forall|sub: Seq<char>| name == #[trigger] (sub + suffix) implies suffix.is_suffix_of(
        name,
    ) by {
        assert(name.subrange(name.len() - suffix.len(), name.len() as int) =~= suffix);
    }
}

/// No hostname is rejected but these, each followed by any number of root dots: nothing,
/// `localhost`, and some text followed by `.localhost` or by `.local`.
pub proof fn rejected_hostname_is_local(host: &str)
    requires
        call_ensures(is_public_hostname, (host,), false),
    ensures
        ({
            ||| exists|n: nat| host@ == #[trigger] dots(n)
            ||| exists|n: nat| host@ == "localhost"@ + #[trigger] dots(n)
            ||| exists|sub: Seq<char>, n: nat|
                host@ == #[trigger] (sub + ".localhost"@) + #[trigger] dots(n)
            ||| exists|sub: Seq<char>, n: nat|
                host@ == #[trigger] (sub + ".local"@) + #[trigger] dots(n)
        }),
{
    let name = trim_end(host@, '.');
    let n = (host@.len() - name.len()) as nat;
    lemma_trim_drops_only_dots(host@);
    hostname_is_judged_without_its_dots(host, name, n, false);
    if name.len() == 0 {
        assert(host@ =~= dots(n));
    }
}

/// A host is judged by what it is: a name as that name, an address as that address.
pub proof fn host_is_judged_by_what_it_is(
    name: String,
    text: &str,
    v4: Ipv4Addr,
    v6: Ipv6Addr,
    by_name: (bool, bool),
    by_v4: (bool, bool),
    by_v6: (bool, bool),
)
    requires
        text@ == name@,
        call_ensures(is_public_host, (&Host::Domain(name),), by_name.0),
        call_ensures(is_public_hostname, (text,), by_name.1),
        call_ensures(is_public_host, (&Host::Ipv4(v4),), by_v4.0),
        call_ensures(is_public_ipv4, (v4,), by_v4.1),
        call_ensures(is_public_host, (&Host::Ipv6(v6),), by_v6.0),
        call_ensures(is_public_ipv6, (v6,), by_v6.1),
    ensures
        by_name.0 == by_name.1,
        by_v4.0 == by_v4.1,
        by_v6.0 == by_v6.1,
{
}

/// `c` is the ASCII letter `lower` or its upper-case form `upper`.
pub open spec fn letter(c: char, lower: char, upper: char) -> bool {
    c == lower || c == upper
}

/// A URL is `http` or `https` if and only if it starts with the letters of the scheme, each in
/// either case, and with `://` behind them.
pub proof fn scheme_is_read_letter_by_letter(url: &str, http: bool)
    requires
        call_ensures(is_http_url, (url,), http),
    ensures
        http <==> {
            let u = url@;
            &&& u.len() >= 7
            &&& letter(u[0], 'h', 'H') && letter(u[1], 't', 'T')
            &&& letter(u[2], 't', 'T') && letter(u[3], 'p', 'P')
            &&& {
                ||| u[4] == ':' && u[5] == '/' && u[6] == '/'
                ||| u.len() >= 8 && letter(u[4], 's', 'S') && u[5] == ':' && u[6] == '/' && u[7]
                    == '/'
            }
        },
        has_http_scheme(url@) == http,
{
    reveal_strlit("http://");
    reveal_strlit("https://");
    let u = url@;
    let lower = ascii_lower(u);
    let a = "http://"@;
    let b = "https://"@;
    if u.len() >= 7 {
        let p = lower.subrange(0, 7);
        assert(p[0] == lower[0] && p[1] == lower[1] && p[2] == lower[2] && p[3] == lower[3] && p[4]
            == lower[4] && p[5] == lower[5] && p[6] == lower[6]);
        if p[0] == 'h' && p[1] == 't' && p[2] == 't' && p[3] == 'p' && p[4] == ':' && p[5] == '/'
            && p[6] == '/' {
            assert(p =~= a);
        }
    }
    if u.len() >= 8 {
        let q = lower.subrange(0, 8);
        assert(q[0] == lower[0] && q[1] == lower[1] && q[2] == lower[2] && q[3] == lower[3] && q[4]
            == lower[4] && q[5] == lower[5] && q[6] == lower[6] && q[7] == lower[7]);
        if q[0] == 'h' && q[1] == 't' && q[2] == 't' && q[3] == 'p' && q[4] == 's' && q[5] == ':'
            && q[6] == '/' && q[7] == '/' {
            assert(q =~= b);
        }
    }
}

/// The local-webhooks setting is on if and only if its value is the one character `1`.
pub proof fn only_one_turns_the_setting_on(unset: bool, value: &str, set: bool)
    requires
        call_ensures(allows_local, (None,), unset),
        call_ensures(allows_local, (Some(value),), set),
    ensures
        !unset,
        set <==> value@.len() == 1 && value@[0] == '1',
{
    reveal_strlit("1");
    if value@.len() == 1 && value@[0] == '1' {
        assert(value@ =~= "1"@);
    }
}

/// A target is safe if and only if its URL is `http` or `https` and, unless local targets are
/// allowed, it has a host that is public.
pub proof fn target_needs_a_scheme_and_a_public_host(
    url: &str,
    host: Host,
    allow_local: bool,
    http: bool,
    public: bool,
    with_host: bool,
    without_host: bool,
)
    requires
        call_ensures(is_http_url, (url,), http),
        call_ensures(is_public_host, (&host,), public),
        call_ensures(is_safe_target, (url, Some(host), allow_local), with_host),
        call_ensures(is_safe_target, (url, None, allow_local), without_host),
    ensures
        with_host <==> http && (allow_local || public),
        without_host <==> http && allow_local,
{
}

/// A URL is judged by the host that the parser reads in it: it is safe if and only if it is `http`
/// or `https` and either the setting is on or that host is public. Where no host is read, only the
/// setting makes it safe.
pub proof fn url_is_judged_by_the_host_read_in_it(
    url: &str,
    setting: Option<&str>,
    host: Host,
    http: bool,
    local: bool,
    public: bool,
    safe: bool,
)
    requires
        call_ensures(is_http_url, (url,), http),
        call_ensures(allows_local, (setting,), local),
        call_ensures(is_public_host, (&host,), public),
        call_ensures(is_safe_url, (url, setting), safe),
    ensures
        url_host(url@) is None ==> (safe <==> http && local),
        url_host(url@) == Some(
            match host {
                Host::Domain(name) => HostView::Domain(name@),
                Host::Ipv4(ip) => HostView::Ipv4(ip),
                Host::Ipv6(ip) => HostView::Ipv6(ip),
            },
        ) ==> (safe <==> http && (local || public)),
{
}

} // verus!
